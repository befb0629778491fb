//! The Joliet tree of an image that was laid out is found again.
use vstd::prelude::*;
use vstd::set_lib::{lemma_int_range, lemma_len_subset, set_int_range};

use crate::error::{ErrorKind, Failure};
use crate::iso9660::description::{JolietEntryModel, JolietModel};
use crate::iso9660::directory::{
    child_record, child_records_from, directory_records, node_record, parent_record, SpotModel,
    TreeOptions,
};
use crate::iso9660::directory_laws::{
    child_models_from, directory_models, node_model, parent_model,
};
use crate::iso9660::joliet::{is_ucs2, ucs2_bytes, ucs2_reads_back};
use crate::iso9660::joliet_walk::{
    joliet_name, joliet_parent, joliet_record_checks, joliet_source, joliet_walked_from,
    with_joliet_child, with_joliet_children_from, with_joliet_directory, JolietWalkModel,
};
use crate::iso9660::order_laws::{
    are_nodes, are_ordered, directories_are_ordered, in_progress, is_held, order_is_kept,
    progress_is_kept,
};
use crate::iso9660::path_table::{find_directory, PlacementModel};
use crate::iso9660::paths::{is_plain_component, joliet_path_check};
use crate::iso9660::placing_laws::subdirectories_follow;
use crate::iso9660::read::directory_contents;
use crate::iso9660::record::{parsed_xa, record_check, system_use_bytes, RecordModel};
use crate::iso9660::time::{recording_time_bytes, recording_time_text};
use crate::iso9660::tree::{
    directories_of, directory_order_from, is_child, is_subdirectory, joliet_node,
    subdirectories_from, unplaced, version_text, NodeModel,
};
use crate::iso9660::tree_walk_laws::{all_found, found_is_first, found_of};
use crate::iso9660::walk::{is_directory_record, joined_parent, visits_again, FoundModel};
use crate::iso9660::walk_laws::{
    flags_tell, models_stay_first, name_is_last_component, version_is_cut, written_xa_is_accepted,
};
use crate::model::first_failure_ok;
use crate::raw_cd::Block;
use crate::text::{
    components, join, last_index_of, last_index_of_is_last, last_index_of_unique, name_of,
    parent_of, root_path,
};

verus! {

/// A Joliet tree with the places of its directories and files.
#[verifier::ext_equal]
pub struct JolietTree {
    pub volume: JolietModel,
    pub nodes: Seq<NodeModel>,
    pub spots: Seq<SpotModel>,
    pub directories: Seq<PlacementModel>,
    pub options: TreeOptions,
}

/// The directories of a Joliet tree in order, before they have places.
pub open spec fn joliet_order(tree: JolietTree) -> Seq<PlacementModel> {
    directories_of(tree.nodes, ErrorKind::UnreachableJolietDirectory)->Ok_0
}

/// A Joliet tree whose directories have places. A file that has no version in its
/// record has none in its name.
pub open spec fn is_joliet_tree(tree: JolietTree) -> bool {
    let entries = tree.volume.entries;
    let order = directories_of(tree.nodes, ErrorKind::UnreachableJolietDirectory);
    &&& entries.len() > 0
    &&& tree.nodes.len() == entries.len()
    &&& tree.spots.len() == entries.len()
    &&& entries[0].path == root_path()
    &&& entries[0].source is None
    &&& forall|k: int|
        0 <= k < entries.len() ==> joliet_node(tree.volume, k) == Ok::<NodeModel, Failure>(
            #[trigger] tree.nodes[k],
        )
    &&& forall|i: int, j: int|
        0 <= i < j < entries.len() ==> (#[trigger] entries[i]).path != (#[trigger] entries[j]).path
    &&& forall|k: int|
        1 <= k < entries.len() ==> joliet_path_check((#[trigger] entries[k]).path) is Ok
    &&& forall|k: int|
        0 <= k < entries.len() && (#[trigger] entries[k]).omit_version ==> entries[k].source is Some
            && last_index_of(name_of(entries[k].path), ';') < 0
    &&& tree.options.xa_system_use == tree.volume.xa_system_use
    &&& order is Ok
    &&& tree.directories.len() == order->Ok_0.len()
    &&& forall|i: int|
        0 <= i < tree.directories.len() ==> (#[trigger] tree.directories[i]).path
            == order->Ok_0[i].path && tree.directories[i].name == order->Ok_0[i].name
            && tree.directories[i].parent == order->Ok_0[i].parent && tree.directories[i].entry
            == order->Ok_0[i].entry
    &&& forall|k: int|
        0 <= k < entries.len() && (#[trigger] entries[k]).source is None ==> {
            let at = find_directory(tree.directories, entries[k].path);
            at < tree.directories.len() ==> tree.spots[k] == (SpotModel {
                extent: tree.directories[at].extent,
                length: Ok(tree.directories[at].length),
            })
        }
}

/// The record of an entry of the Joliet tree.
pub open spec fn joliet_model_at(tree: JolietTree, index: int) -> RecordModel {
    let node = tree.nodes[index];
    node_model(
        node,
        tree.spots[index].extent,
        tree.spots[index].length->Ok_0,
        node.identifier,
        node.directory,
        tree.options.trailing_system_use_padding,
        node.system_use,
    )
}

/// The record of an entry of the Joliet tree can be written.
pub open spec fn is_joliet_written(tree: JolietTree, index: int) -> bool {
    let node = tree.nodes[index];
    &&& tree.spots[index].length is Ok
    &&& recording_time_bytes(node.recording_time) is Ok
    &&& system_use_bytes(node.path, node.xa, node.directory, node.system_use) is Ok
}

/// An entry of the Joliet tree, as it is read where the files of the primary tree
/// lie at known places.
pub open spec fn joliet_read_entry(tree: JolietTree, files: Seq<FoundModel>, index: int) -> JolietEntryModel {
    let record = joliet_model_at(tree, index);
    let entry = tree.volume.entries[index];
    JolietEntryModel {
        path: entry.path,
        source: joliet_source(files, record)->Ok_0,
        omit_version: entry.omit_version,
        recording_time: recording_time_text(record.recording_time),
        hidden: entry.hidden,
        associated: entry.associated,
        xa: parsed_xa(
            record.system_use,
            tree.nodes[index].directory,
            tree.options.xa_system_use,
        )->Ok_0,
    }
}

/// What is found of an entry of the Joliet tree.
pub open spec fn joliet_found_at(tree: JolietTree, index: int) -> FoundModel {
    let record = joliet_model_at(tree, index);
    FoundModel {
        path: tree.volume.entries[index].path,
        extent: record.extent,
        length: record.length,
    }
}

/// Every file of the Joliet tree is one of those of the primary tree, and one only.
pub open spec fn sources_are_told(tree: JolietTree, files: Seq<FoundModel>) -> bool {
    forall|k: int|
        0 <= k < tree.volume.entries.len() && (#[trigger] tree.volume.entries[k]).source is Some
            ==> joliet_source(files, joliet_model_at(tree, k)) is Ok
}

/// The path of an entry is its directory's, and its name.
proof fn joliet_path_joins(path: Seq<char>)
    requires
        joliet_path_check(path) is Ok,
    ensures
        join(joined_parent(parent_of(path)), name_of(path)) == path,
        path != root_path(),
{
    last_index_of_is_last(path, '/');
    let index = last_index_of(path, '/');
    let parts = components(path);
    name_is_last_component(path);
    assert(is_plain_component(parts[parts.len() - 1]));
    if index < 0 {
        assert(name_of(path) =~= path);
    } else {
        let parent = path.subrange(0, index);
        if parent.len() == 0 {
            assert(path[0] == '/');
        }
        if parent == root_path() {
            assert(last_index_of(root_path(), '/') < 0) by {
                last_index_of_is_last(root_path(), '/');
                last_index_of_unique(root_path(), '/', -1);
            }
            assert(components(root_path()) == seq![root_path()]);
            assert(parts == seq![root_path()].push(path.subrange(index + 1, path.len() as int)));
            assert(parts[0] == root_path());
            assert(is_plain_component(parts[0]));
            assert(false);
        }
        if path == root_path() {
            assert(path[index] == '/');
        }
        assert(join(parent_of(path), name_of(path)) =~= path);
    }
}

/// The name of a record is the name of its entry.
pub proof fn joliet_name_is_read(tree: JolietTree, index: int)
    requires
        is_joliet_tree(tree),
        0 < index < tree.volume.entries.len(),
    ensures
        joliet_name(joliet_model_at(tree, index)) == Ok::<(Seq<char>, bool), Failure>(
            (name_of(tree.volume.entries[index].path), tree.volume.entries[index].omit_version),
        ),
        is_directory_record(joliet_model_at(tree, index)) == tree.nodes[index].directory,
{
    let entry = tree.volume.entries[index];
    let node = tree.nodes[index];
    assert(joliet_node(tree.volume, index) == Ok::<NodeModel, Failure>(node));
    flags_tell(node.directory, node.hidden, node.associated);
    let name = name_of(entry.path);
    assert(is_ucs2(name));
    if entry.source is Some && !entry.omit_version {
        let text = name + version_text();
        assert(is_ucs2(text)) by {
            assert forall|i: int| 0 <= i < text.len() implies (#[trigger] text[i] as u32) <= 0xffff by {
                if i < name.len() {
                    assert(text[i] == name[i]);
                }
            }
        }
        assert(ucs2_bytes(text) =~= ucs2_bytes(name) + ucs2_bytes(version_text()));
        ucs2_reads_back(text, 0);
        assert(text.take(0) =~= Seq::empty());
        version_is_cut(name);
    } else {
        ucs2_reads_back(name, 0);
        assert(name.take(0) =~= Seq::empty());
    }
}

/// What is known after the record of an entry.
proof fn joliet_child_is_read(tree: JolietTree, files: Seq<FoundModel>, index: int, walk: JolietWalkModel)
    requires
        is_joliet_tree(tree),
        sources_are_told(tree, files),
        0 < index < tree.volume.entries.len(),
        is_joliet_written(tree, index),
    ensures
        with_joliet_child(
            files,
            tree.options.xa_system_use,
            joined_parent(parent_of(tree.volume.entries[index].path)),
            walk,
            joliet_model_at(tree, index),
        ) == Ok::<JolietWalkModel, Failure>(
            JolietWalkModel {
                entries: walk.entries.push(joliet_read_entry(tree, files, index)),
                directories: if tree.nodes[index].directory {
                    walk.directories.push(joliet_found_at(tree, index))
                } else {
                    walk.directories
                },
            },
        ),
        record_check(
            joliet_model_at(tree, index),
            is_directory_record(joliet_model_at(tree, index)),
            tree.options.xa_system_use,
        ) is Ok,
{
    let entry = tree.volume.entries[index];
    let node = tree.nodes[index];
    let record = joliet_model_at(tree, index);
    assert(joliet_node(tree.volume, index) == Ok::<NodeModel, Failure>(node));
    joliet_name_is_read(tree, index);
    joliet_path_joins(entry.path);
    flags_tell(node.directory, node.hidden, node.associated);
    written_xa_is_accepted(node.path, node.xa, node.directory, node.system_use, record.system_use);
}

/// `read`, and then the entries from `index` on that lie in a directory.
pub open spec fn joliet_child_entries_from(
    tree: JolietTree,
    files: Seq<FoundModel>,
    path: Seq<char>,
    index: int,
    read: Seq<JolietEntryModel>,
) -> Seq<JolietEntryModel>
    decreases tree.nodes.len() - index,
{
    if index < 0 || index >= tree.nodes.len() {
        read
    } else if is_child(tree.nodes[index], path) {
        joliet_child_entries_from(
            tree,
            files,
            path,
            index + 1,
            read.push(joliet_read_entry(tree, files, index)),
        )
    } else {
        joliet_child_entries_from(tree, files, path, index + 1, read)
    }
}

/// `found`, and then the directories from `index` on that lie in a directory.
pub open spec fn joliet_child_directories_from(
    tree: JolietTree,
    path: Seq<char>,
    index: int,
    found: Seq<FoundModel>,
) -> Seq<FoundModel>
    decreases tree.nodes.len() - index,
{
    if index < 0 || index >= tree.nodes.len() {
        found
    } else if is_subdirectory(tree.nodes[index], path) {
        joliet_child_directories_from(
            tree,
            path,
            index + 1,
            found.push(joliet_found_at(tree, index)),
        )
    } else {
        joliet_child_directories_from(tree, path, index + 1, found)
    }
}

/// The records of everything that lies in a directory can be written.
pub open spec fn joliet_children_are_written(tree: JolietTree, path: Seq<char>) -> bool {
    forall|k: int|
        0 <= k < tree.nodes.len() && is_child(#[trigger] tree.nodes[k], path) ==> is_joliet_written(
            tree,
            k,
        )
}

/// The records of a directory from `index` on are read as what lies in it.
proof fn joliet_children_are_read(
    tree: JolietTree,
    files: Seq<FoundModel>,
    path: Seq<char>,
    index: int,
    made: Seq<RecordModel>,
    walk: JolietWalkModel,
)
    requires
        is_joliet_tree(tree),
        sources_are_told(tree, files),
        joliet_children_are_written(tree, path),
        0 <= index,
    ensures
        ({
            let records = child_models_from(
                tree.nodes,
                tree.spots,
                path,
                tree.options.trailing_system_use_padding,
                index,
                made,
            );
            &&& with_joliet_children_from(
                files,
                tree.options.xa_system_use,
                joined_parent(path),
                walk,
                records,
                made.len() as int,
            ) == Ok::<JolietWalkModel, Failure>(
                JolietWalkModel {
                    entries: joliet_child_entries_from(tree, files, path, index, walk.entries),
                    directories: joliet_child_directories_from(
                        tree,
                        path,
                        index,
                        walk.directories,
                    ),
                },
            )
            &&& forall|i: int|
                made.len() <= i < records.len() ==> record_check(
                    #[trigger] records[i],
                    is_directory_record(records[i]),
                    tree.options.xa_system_use,
                ) is Ok
        }),
    decreases tree.nodes.len() - index,
{
    let trailing = tree.options.trailing_system_use_padding;
    let records = child_models_from(tree.nodes, tree.spots, path, trailing, index, made);
    if index < tree.nodes.len() {
        let node = tree.nodes[index];
        assert(joliet_node(tree.volume, index) == Ok::<NodeModel, Failure>(node));
        if is_child(node, path) {
            let model = joliet_model_at(tree, index);
            let more = made.push(model);
            models_stay_first(tree.nodes, tree.spots, path, trailing, index + 1, more);
            assert(records[made.len() as int] == more[made.len() as int]);
            assert(index > 0);
            joliet_child_is_read(tree, files, index, walk);
            let next = with_joliet_child(
                files,
                tree.options.xa_system_use,
                joined_parent(path),
                walk,
                model,
            )->Ok_0;
            joliet_children_are_read(tree, files, path, index + 1, more, next);
        } else {
            joliet_children_are_read(tree, files, path, index + 1, made, walk);
        }
    }
}

/// The directories of a Joliet tree are in order, and each is found by its path.
pub proof fn joliet_directories_follow_order(tree: JolietTree)
    requires
        is_joliet_tree(tree),
    ensures
        are_nodes(tree.nodes),
        are_ordered(tree.nodes, tree.directories, tree.directories.len() as int),
        forall|i: int|
            0 <= i < tree.directories.len() ==> find_directory(
                tree.directories,
                (#[trigger] tree.directories[i]).path,
            ) == i,
{
    let nodes = tree.nodes;
    let directories = tree.directories;
    let ordered = joliet_order(tree);
    assert forall|k: int| 0 <= k < nodes.len() implies (#[trigger] nodes[k]).path
        == tree.volume.entries[k].path && nodes[k].parent == parent_of(nodes[k].path) by {
        assert(joliet_node(tree.volume, k) == Ok::<NodeModel, Failure>(nodes[k]));
    }
    assert forall|i: int, j: int| 0 <= i < j < nodes.len() implies (#[trigger] nodes[i]).path != (
    #[trigger] nodes[j]).path by {
        assert(tree.volume.entries[i].path != tree.volume.entries[j].path);
    }
    directories_are_ordered(nodes, ErrorKind::UnreachableJolietDirectory);
    assert forall|m: int| 1 <= m < directories.len() implies #[trigger] is_held(
        nodes,
        directories,
        m,
        directories.len() as int,
    ) by {
        assert(is_held(nodes, ordered, m, ordered.len() as int));
        assert(directories[m].path == ordered[m].path);
        assert(directories[ordered[m].parent].path == ordered[ordered[m].parent].path);
    }
    assert forall|i: int, j: int| 0 <= i < j < directories.len() implies (
    #[trigger] directories[i]).path != (#[trigger] directories[j]).path by {
        assert(ordered[i].path != ordered[j].path);
    }
    assert(directories[0].path == ordered[0].path);
    assert forall|i: int| 0 <= i < directories.len() implies find_directory(
        directories,
        (#[trigger] directories[i]).path,
    ) == i by {
        found_is_first(directories, i, 0);
    }
}

pub proof fn joliet_made_children_are_written(
    tree: JolietTree,
    path: Seq<char>,
    index: int,
    made: Seq<Seq<u8>>,
)
    requires
        0 <= index,
        child_records_from(
            tree.nodes,
            tree.spots,
            path,
            tree.options.trailing_system_use_padding,
            index,
            made,
        ) is Ok,
    ensures
        forall|k: int|
            index <= k < tree.nodes.len() && is_child(#[trigger] tree.nodes[k], path)
                ==> is_joliet_written(tree, k),
    decreases tree.nodes.len() - index,
{
    if index < tree.nodes.len() {
        if is_child(tree.nodes[index], path) {
            let record = child_record(
                tree.nodes[index],
                tree.spots[index],
                tree.options.trailing_system_use_padding,
            )->Ok_0;
            assert(is_joliet_written(tree, index));
            joliet_made_children_are_written(tree, path, index + 1, made.push(record));
        } else {
            joliet_made_children_are_written(tree, path, index + 1, made);
        }
    }
}

/// The first records of a directory are accepted.
pub proof fn joliet_dot_is_accepted(
    tree: JolietTree,
    node: NodeModel,
    extent: u32,
    length: u32,
    name: Seq<u8>,
)
    requires
        system_use_bytes(node.path, node.xa, true, tree.options.xa_system_use) is Ok,
    ensures
        ({
            let record = node_model(
                node,
                extent,
                length,
                name,
                true,
                tree.options.trailing_system_use_padding,
                tree.options.xa_system_use,
            );
            &&& record_check(record, is_directory_record(record), tree.options.xa_system_use) is Ok
            &&& (record.system_use.len() > 0) == tree.options.xa_system_use
        }),
{
    let record = node_model(
        node,
        extent,
        length,
        name,
        true,
        tree.options.trailing_system_use_padding,
        tree.options.xa_system_use,
    );
    flags_tell(true, node.hidden, node.associated);
    written_xa_is_accepted(node.path, node.xa, true, tree.options.xa_system_use, record.system_use);
}

/// A directory of the Joliet tree is read as its records.
#[verifier::opaque]
pub open spec fn is_joliet_readable(tree: JolietTree, blocks: Seq<Block>, index: int) -> bool {
    let directory = tree.directories[index];
    let parent = tree.directories[directory.parent];
    let contents = directory_contents(blocks, directory.extent, directory.length);
    &&& directory_records(tree.nodes, tree.spots, directory, parent, tree.options) is Ok
    &&& contents is Ok
    &&& contents->Ok_0.records == directory_models(
        tree.nodes,
        tree.spots,
        directory,
        parent,
        tree.options,
    )
    &&& contents->Ok_0.slack is None
    &&& directory.length > 0
}

/// The Joliet tree of an image can be walked: each directory is read as its records,
/// and no two begin at one block.
pub open spec fn is_joliet_walkable(tree: JolietTree, blocks: Seq<Block>) -> bool {
    &&& is_joliet_tree(tree)
    &&& forall|j: int|
        0 <= j < tree.directories.len() ==> is_joliet_readable(tree, blocks, j) && (
        #[trigger] tree.directories[j]).extent < blocks.len()
    &&& forall|i: int, j: int|
        0 <= i < j < tree.directories.len() ==> (#[trigger] tree.directories[i]).extent != (
        #[trigger] tree.directories[j]).extent
}

/// The records of a directory are read as what it holds.
#[verifier::rlimit(30)]
proof fn joliet_directory_is_visited(
    tree: JolietTree,
    blocks: Seq<Block>,
    files: Seq<FoundModel>,
    walk: JolietWalkModel,
    index: int,
)
    requires
        is_joliet_walkable(tree, blocks),
        sources_are_told(tree, files),
        0 <= index < tree.directories.len(),
    ensures
        with_joliet_directory(
            blocks,
            files,
            tree.options.xa_system_use,
            walk,
            found_of(tree.directories[index]),
            joliet_parent(found_of(tree.directories[index]), index),
        ) == Ok::<JolietWalkModel, Failure>(
            JolietWalkModel {
                entries: joliet_child_entries_from(
                    tree,
                    files,
                    tree.directories[index].path,
                    0,
                    walk.entries,
                ),
                directories: joliet_child_directories_from(
                    tree,
                    tree.directories[index].path,
                    0,
                    walk.directories,
                ),
            },
        ),
{
    reveal(with_joliet_directory);
    reveal(is_joliet_readable);
    let nodes = tree.nodes;
    let options = tree.options;
    let trailing = options.trailing_system_use_padding;
    let directory = tree.directories[index];
    let parent = tree.directories[directory.parent];
    assert(is_joliet_readable(tree, blocks, index));
    joliet_directories_follow_order(tree);
    if index > 0 {
        assert(is_held(nodes, tree.directories, index, tree.directories.len() as int));
    }
    assert(joliet_parent(found_of(directory), index) =~= joined_parent(directory.path));
    let own_record = node_record(
        nodes[directory.entry],
        directory.extent,
        directory.length,
        seq![0u8],
        true,
        trailing,
        options.xa_system_use,
    )->Ok_0;
    let above_record = parent_record(nodes, directory, parent, options)->Ok_0;
    joliet_made_children_are_written(tree, directory.path, 0, seq![own_record, above_record]);
    let own = node_model(
        nodes[directory.entry],
        directory.extent,
        directory.length,
        seq![0u8],
        true,
        trailing,
        options.xa_system_use,
    );
    let above = parent_model(nodes, directory, parent, options);
    joliet_dot_is_accepted(
        tree,
        nodes[directory.entry],
        directory.extent,
        directory.length,
        seq![0u8],
    );
    joliet_dot_is_accepted(tree, nodes[parent.entry], parent.extent, parent.length, seq![1u8]);
    let first = seq![own, above];
    let records = directory_models(nodes, tree.spots, directory, parent, options);
    models_stay_first(nodes, tree.spots, directory.path, trailing, 0, first);
    assert(records[0] == first[0] && records[1] == first[1]);
    joliet_children_are_read(tree, files, directory.path, 0, first, walk);
    let checks = joliet_record_checks(records, options.xa_system_use);
    first_failure_ok(checks, 0, records.len() as int);
    assert forall|i: int| 0 <= i < records.len() implies (#[trigger] checks(i)) is Ok by {
        if i < 2 {
            assert(records[i] == first[i]);
        }
        assert(record_check(
            records[i],
            is_directory_record(records[i]),
            options.xa_system_use,
        ) is Ok);
    }
}

/// The directories that a walk finds in one are the next in order.
proof fn next_joliet_directories_are_found(
    tree: JolietTree,
    path: Seq<char>,
    parent: int,
    index: int,
    found: Seq<PlacementModel>,
    read: Seq<FoundModel>,
)
    requires
        is_joliet_tree(tree),
        0 <= index,
        read == all_found(tree.directories, found.len() as int),
        ({
            let all = subdirectories_from(tree.nodes, path, parent, index, found);
            &&& all.len() <= tree.directories.len()
            &&& all == joliet_order(tree).take(all.len() as int)
        }),
        found.len() <= subdirectories_from(tree.nodes, path, parent, index, found).len(),
    ensures
        ({
            let all = subdirectories_from(tree.nodes, path, parent, index, found);
            joliet_child_directories_from(tree, path, index, read) == all_found(
                tree.directories,
                all.len() as int,
            )
        }),
    decreases tree.nodes.len() - index,
{
    let nodes = tree.nodes;
    let directories = tree.directories;
    if index < nodes.len() {
        if is_subdirectory(nodes[index], path) {
            let more = found.push(
                unplaced(nodes[index].path, nodes[index].identifier, parent, index),
            );
            let all = subdirectories_from(nodes, path, parent, index, found);
            subdirectories_follow(nodes, path, parent, index + 1, more);
            let n = found.len() as int;
            assert(all.take(more.len() as int)[n] == more[n]);
            assert(all[n] == joliet_order(tree).take(all.len() as int)[n]);
            joliet_directories_follow_order(tree);
            assert(directories[n].path == joliet_order(tree)[n].path);
            assert(find_directory(directories, directories[n].path) == n);
            assert(joliet_node(tree.volume, index) == Ok::<NodeModel, Failure>(nodes[index]));
            assert(tree.volume.entries[index].source is None);
            let next = joliet_found_at(tree, index);
            assert(next == found_of(directories[n]));
            assert(read.push(next) =~= all_found(directories, n + 1));
            next_joliet_directories_are_found(
                tree,
                path,
                parent,
                index + 1,
                more,
                read.push(next),
            );
        } else {
            next_joliet_directories_are_found(tree, path, parent, index + 1, found, read);
        }
    }
}

/// `read`, and then what lies in the directories from `index` on.
pub open spec fn joliet_tree_entries_from(
    tree: JolietTree,
    files: Seq<FoundModel>,
    index: int,
    read: Seq<JolietEntryModel>,
) -> Seq<JolietEntryModel>
    decreases tree.directories.len() - index,
{
    if index < 0 || index >= tree.directories.len() {
        read
    } else {
        joliet_tree_entries_from(
            tree,
            files,
            index + 1,
            joliet_child_entries_from(tree, files, tree.directories[index].path, 0, read),
        )
    }
}

/// No more directories lie in an image than it has blocks.
proof fn joliet_directories_are_few(tree: JolietTree, blocks: Seq<Block>, count: int)
    requires
        is_joliet_walkable(tree, blocks),
        0 <= count <= tree.directories.len(),
    ensures
        count <= blocks.len(),
{
    let extents = Seq::new(count as nat, |i: int| tree.directories[i].extent as int);
    assert(extents.no_duplicates());
    extents.unique_seq_to_set();
    let within = set_int_range(0, blocks.len() as int);
    lemma_int_range(0, blocks.len() as int);
    assert(extents.to_set().subset_of(within));
    lemma_len_subset(extents.to_set(), within);
}

/// A walk goes on to the end of the tree.
#[verifier::rlimit(60)]
proof fn joliet_walk_goes_on(
    tree: JolietTree,
    blocks: Seq<Block>,
    files: Seq<FoundModel>,
    walk: JolietWalkModel,
    index: int,
    found: Seq<PlacementModel>,
)
    requires
        is_joliet_walkable(tree, blocks),
        sources_are_told(tree, files),
        in_progress(tree.nodes, found, index),
        directory_order_from(
            tree.nodes,
            index,
            found,
            ErrorKind::UnreachableJolietDirectory,
        ) == Ok::<Seq<PlacementModel>, Failure>(joliet_order(tree)),
        walk.directories == all_found(tree.directories, found.len() as int),
    ensures
        joliet_walked_from(blocks, files, tree.options.xa_system_use, walk, index) == Ok::<
            JolietWalkModel,
            Failure,
        >(
            JolietWalkModel {
                entries: joliet_tree_entries_from(tree, files, index, walk.entries),
                directories: all_found(tree.directories, tree.directories.len() as int),
            },
        ),
    decreases tree.directories.len() - index,
{
    let nodes = tree.nodes;
    let directories = tree.directories;
    let ordered = joliet_order(tree);
    joliet_directories_follow_order(tree);
    order_is_kept(nodes, index, found, ErrorKind::UnreachableJolietDirectory);
    if index >= found.len() {
        assert(found =~= ordered);
    } else {
        let directory = directories[index];
        assert(walk.directories[index] == found_of(directory));
        assert(ordered.take(found.len() as int)[index] == found[index]);
        assert(directory.path == found[index].path);
        progress_is_kept(nodes, found, index);
        let more = subdirectories_from(nodes, found[index].path, index, 0, found);
        joliet_directories_are_few(tree, blocks, index + 1);
        if visits_again(walk.directories, index) {
            let i = choose|i: int|
                0 <= i < index && (#[trigger] walk.directories[i]).length != 0
                    && walk.directories[i].extent == walk.directories[index].extent;
            assert(walk.directories[i] == found_of(directories[i]));
            assert(directories[i].extent != directories[index].extent);
        }
        joliet_directory_is_visited(tree, blocks, files, walk, index);
        let next = with_joliet_directory(
            blocks,
            files,
            tree.options.xa_system_use,
            walk,
            found_of(directory),
            joliet_parent(found_of(directory), index),
        )->Ok_0;
        order_is_kept(nodes, index + 1, more, ErrorKind::UnreachableJolietDirectory);
        assert(more =~= ordered.take(more.len() as int));
        next_joliet_directories_are_found(
            tree,
            directory.path,
            index,
            0,
            found,
            walk.directories,
        );
        joliet_walk_goes_on(tree, blocks, files, next, index + 1, more);
    }
}

/// A walk of the Joliet tree that begins at its root finds the whole tree: all
/// directories, each where it lies, and below them everything that the volume has in
/// them, in order.
pub proof fn joliet_walk_finds_tree(
    tree: JolietTree,
    blocks: Seq<Block>,
    files: Seq<FoundModel>,
    start: JolietWalkModel,
)
    requires
        is_joliet_walkable(tree, blocks),
        sources_are_told(tree, files),
        start.directories == seq![found_of(tree.directories[0])],
    ensures
        joliet_walked_from(blocks, files, tree.options.xa_system_use, start, 0) == Ok::<
            JolietWalkModel,
            Failure,
        >(
            JolietWalkModel {
                entries: joliet_tree_entries_from(tree, files, 0, start.entries),
                directories: all_found(tree.directories, tree.directories.len() as int),
            },
        ),
{
    let found = seq![unplaced(root_path(), seq![0u8], 0, 0)];
    joliet_directories_follow_order(tree);
    assert(start.directories =~= all_found(tree.directories, 1));
    joliet_walk_goes_on(tree, blocks, files, start, 0, found);
}

} // verus!
