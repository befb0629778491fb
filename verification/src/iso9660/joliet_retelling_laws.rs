//! What is told of a Joliet tree describes the tree that it is told of.
use vstd::prelude::*;
use vstd::set_lib::lemma_subset_equality;

use crate::error::{ErrorKind, Failure};
use crate::iso9660::description::{EntryXaModel, IsoModel, JolietEntryModel, JolietModel};
use crate::iso9660::directory::{
    child_record, directory_bytes, directory_records, node_record, parent_record, SpotModel,
    TreeOptions,
};
use crate::iso9660::directory_laws::recording_time_length;
use crate::iso9660::joliet_laws::{
    is_joliet_readable, is_joliet_tree, is_joliet_walkable, is_joliet_written,
    joliet_child_entries_from, joliet_directories_follow_order, joliet_made_children_are_written,
    joliet_name_is_read, joliet_read_entry, joliet_tree_entries_from, sources_are_told,
    JolietTree,
};
use crate::iso9660::joliet_parse_laws::told_joliet_root;
use crate::iso9660::layout::{with_extent, with_joliet_directories_from};
use crate::iso9660::order_laws::is_held;
use crate::iso9660::path_table::PlacementModel;
use crate::iso9660::record::{parsed_xa, system_use_bytes, xa_bytes};
use crate::iso9660::record_laws::xa_bytes_survive;
use crate::iso9660::relabel_laws::relabelled;
use crate::iso9660::retold_layout_laws::made_children_are_ok;
use crate::iso9660::selection_laws::{
    all_are_chosen, chosen, chosen_are_children, chosen_of_both, directories_are_counted,
    directory_indexes, first_indexes, held, held_are_ordered, is_retold, none_are_chosen,
    one_more_is_chosen, records_are_retold, same_node,
};
use crate::iso9660::time::recording_time_bytes;
use crate::iso9660::time_laws::recording_time_survives;
use crate::iso9660::tree::{
    count_directories, directory_order_from, is_child, is_file, joliet_node, joliet_nodes,
    joliet_nodes_from, subdirectories_from, NodeModel,
};
use crate::iso9660::validate::{
    find_joliet_from, joliet_entry_check, joliet_parent_check, joliet_path_before,
    only_record_fields,
};
use crate::iso9660::walk::FoundModel;
use crate::iso9660::walk_laws::written_xa_is_accepted;
use crate::raw_cd::Block;
use crate::text::{parent_of, root_path};

verus! {

/// A node that is told is written as the one that it is told of.
pub open spec fn writes_alike(node: NodeModel, told: NodeModel) -> bool {
    &&& same_node(node, told)
    &&& recording_time_bytes(told.recording_time) == recording_time_bytes(node.recording_time)
    &&& told.hidden == node.hidden
    &&& told.associated == node.associated
    &&& system_use_bytes(told.path, told.xa, told.directory, told.system_use) == system_use_bytes(
        node.path,
        node.xa,
        node.directory,
        node.system_use,
    )
}

/// A tree is told in another order: each node is written alike, and points to the same
/// place.
pub open spec fn is_rewritten(
    nodes: Seq<NodeModel>,
    spots: Seq<SpotModel>,
    told: Seq<NodeModel>,
    told_spots: Seq<SpotModel>,
    origins: Seq<int>,
) -> bool {
    &&& is_retold(nodes, told, origins)
    &&& forall|e: int|
        0 <= e < origins.len() ==> writes_alike(nodes[#[trigger] origins[e]], told[e])
            && told_spots[e] == spots[origins[e]]
}

/// Directories are those of nodes that are told.
pub open spec fn are_labels(
    nodes: Seq<NodeModel>,
    directories: Seq<PlacementModel>,
    labels: Seq<int>,
    origins: Seq<int>,
    system_use: bool,
) -> bool {
    &&& labels.len() == directories.len()
    &&& forall|i: int|
        0 <= i < directories.len() ==> {
            let entry = (#[trigger] directories[i]).entry;
            &&& 0 <= labels[i] < origins.len()
            &&& origins[labels[i]] == entry
            &&& 0 <= entry < nodes.len()
            &&& nodes[entry].directory
            &&& nodes[entry].system_use == system_use
            &&& 0 <= directories[i].parent < directories.len()
        }
}

/// The bytes of a directory are written as they are told.
proof fn tree_directory_is_rewritten(
    nodes: Seq<NodeModel>,
    spots: Seq<SpotModel>,
    told: Seq<NodeModel>,
    told_spots: Seq<SpotModel>,
    origins: Seq<int>,
    directories: Seq<PlacementModel>,
    labels: Seq<int>,
    options: TreeOptions,
    index: int,
)
    requires
        is_rewritten(nodes, spots, told, told_spots, origins),
        are_labels(nodes, directories, labels, origins, options.xa_system_use),
        0 <= index < directories.len(),
        directory_records(
            nodes,
            spots,
            directories[index],
            directories[directories[index].parent],
            options,
        ) is Ok,
    ensures
        ({
            let again = relabelled(directories, labels);
            directory_bytes(
                told,
                told_spots,
                again[index],
                again[again[index].parent],
                None,
                options,
            ) == directory_bytes(
                nodes,
                spots,
                directories[index],
                directories[directories[index].parent],
                None,
                options,
            )
        }),
{
    let directory = directories[index];
    let parent = directories[directory.parent];
    let again = relabelled(directories, labels);
    let trailing = options.trailing_system_use_padding;
    assert(again[index].entry == labels[index] && again[directory.parent].entry
        == labels[directory.parent]);
    assert(writes_alike(nodes[origins[labels[index]]], told[labels[index]]));
    assert(writes_alike(
        nodes[origins[labels[directory.parent]]],
        told[labels[directory.parent]],
    ));
    let own = node_record(
        nodes[directory.entry],
        directory.extent,
        directory.length,
        seq![0u8],
        true,
        trailing,
        options.xa_system_use,
    )->Ok_0;
    let above = parent_record(nodes, directory, parent, options)->Ok_0;
    let first = seq![own, above];
    assert forall|k: int| 0 <= k < nodes.len() && is_child(
        #[trigger] nodes[k],
        directory.path,
    ) implies child_record(nodes[k], spots[k], trailing) is Ok by {
        made_children_are_ok(nodes, spots, directory.path, trailing, 0, first, k);
    }
    assert forall|e: int| 0 <= e < told.len() && is_child(
        #[trigger] told[e],
        directory.path,
    ) implies child_record(told[e], told_spots[e], trailing) == child_record(
        nodes[origins[e]],
        spots[origins[e]],
        trailing,
    ) by {
        assert(writes_alike(nodes[origins[e]], told[e]));
    }
    records_are_retold(
        nodes,
        spots,
        told,
        told_spots,
        origins,
        directory.path,
        trailing,
        trailing,
        first,
    );
}

/// The directories of a tree are written as they are told.
pub proof fn tree_is_rewritten(
    nodes: Seq<NodeModel>,
    spots: Seq<SpotModel>,
    told: Seq<NodeModel>,
    told_spots: Seq<SpotModel>,
    origins: Seq<int>,
    directories: Seq<PlacementModel>,
    labels: Seq<int>,
    options: TreeOptions,
    image: Seq<u8>,
    index: int,
)
    requires
        is_rewritten(nodes, spots, told, told_spots, origins),
        are_labels(nodes, directories, labels, origins, options.xa_system_use),
        0 <= index,
        with_joliet_directories_from(nodes, spots, directories, options, image, index) is Ok,
    ensures
        with_joliet_directories_from(
            told,
            told_spots,
            relabelled(directories, labels),
            options,
            image,
            index,
        ) == with_joliet_directories_from(nodes, spots, directories, options, image, index),
    decreases directories.len() - index,
{
    if index < directories.len() {
        tree_directory_is_rewritten(
            nodes,
            spots,
            told,
            told_spots,
            origins,
            directories,
            labels,
            options,
            index,
        );
        let directory = directories[index];
        let data = directory_bytes(
            nodes,
            spots,
            directory,
            directories[directory.parent],
            None,
            options,
        )->Ok_0;
        tree_is_rewritten(
            nodes,
            spots,
            told,
            told_spots,
            origins,
            directories,
            labels,
            options,
            with_extent(image, directory.extent as int, data),
            index + 1,
        );
    }
}

/// `read`, and then the indexes of what lies in the directories from `index` on.
pub open spec fn joliet_origins_from(tree: JolietTree, index: int, read: Seq<int>) -> Seq<int>
    decreases tree.directories.len() - index,
{
    if index < 0 || index >= tree.directories.len() {
        read
    } else {
        joliet_origins_from(
            tree,
            index + 1,
            read + held(tree.nodes, tree.directories[index].path),
        )
    }
}

/// For each entry that is told, the index of the one it is told of.
pub open spec fn joliet_origins(tree: JolietTree) -> Seq<int> {
    joliet_origins_from(tree, 0, seq![0int])
}

/// A node lies in one of the first directories.
pub open spec fn lies_in_first(tree: JolietTree, index: int, k: int) -> bool {
    exists|j: int|
        0 <= j < index && j < tree.directories.len() && is_child(
            tree.nodes[k],
            (#[trigger] tree.directories[j]).path,
        )
}

/// Indexes of what lies in the first directories: each once, those of one directory
/// in order.
spec fn are_origins(tree: JolietTree, index: int, origins: Seq<int>) -> bool {
    &&& origins.len() > 0
    &&& origins[0] == 0
    &&& forall|e: int|
        1 <= e < origins.len() ==> 0 < #[trigger] origins[e] < tree.nodes.len() && lies_in_first(
            tree,
            index,
            origins[e],
        )
    &&& forall|e: int, f: int|
        0 <= e < f < origins.len() ==> #[trigger] origins[e] != #[trigger] origins[f]
    &&& forall|j: int|
        0 <= j < index && j < tree.directories.len() ==> chosen(
            tree.nodes,
            origins,
            (#[trigger] tree.directories[j]).path,
        ) == held(tree.nodes, tree.directories[j].path)
}

/// One more directory adds what lies in it.
proof fn origins_grow(tree: JolietTree, index: int, origins: Seq<int>)
    requires
        is_joliet_tree(tree),
        0 <= index < tree.directories.len(),
        are_origins(tree, index, origins),
    ensures
        are_origins(
            tree,
            index + 1,
            origins + held(tree.nodes, tree.directories[index].path),
        ),
{
    let nodes = tree.nodes;
    let directories = tree.directories;
    joliet_directories_follow_order(tree);
    let path = directories[index].path;
    let all = held(nodes, path);
    assert forall|k: int| #[trigger] lies_in_first(tree, index, k) implies lies_in_first(
        tree,
        index + 1,
        k,
    ) && !is_child(nodes[k], path) by {
        let j = choose|j: int|
            0 <= j < index && j < directories.len() && is_child(
                nodes[k],
                (#[trigger] directories[j]).path,
            );
        assert(directories[j].path != directories[index].path);
    }
    let more = origins + all;
    held_are_ordered(nodes, path, nodes.len() as int);
    chosen_are_children(nodes, first_indexes(nodes.len() as int), path);
    assert(nodes[0].path == root_path());
    assert forall|e: int| 1 <= e < more.len() implies 0 < #[trigger] more[e] < nodes.len()
        && lies_in_first(tree, index + 1, more[e]) by {
        if e < origins.len() {
            assert(more[e] == origins[e]);
        } else {
            assert(more[e] == all[e - origins.len()]);
            assert(is_child(nodes[more[e]], directories[index].path));
        }
    }
    assert forall|e: int| 0 <= e < origins.len() implies !is_child(
        nodes[#[trigger] origins[e]],
        path,
    ) by {}
    assert forall|e: int, f: int| 0 <= e < f < more.len() implies #[trigger] more[e]
        != #[trigger] more[f] by {
        if f < origins.len() {
            assert(more[e] == origins[e] && more[f] == origins[f]);
        } else {
            assert(more[f] == all[f - origins.len()]);
            assert(is_child(nodes[all[f - origins.len()]], path));
            if e < origins.len() {
                assert(more[e] == origins[e]);
            } else {
                assert(more[e] == all[e - origins.len()]);
            }
        }
    }
    assert forall|j: int| 0 <= j < index + 1 && j < directories.len() implies chosen(
        nodes,
        more,
        (#[trigger] directories[j]).path,
    ) == held(nodes, directories[j].path) by {
        chosen_of_both(nodes, origins, all, directories[j].path);
        if j < index {
            assert(directories[j].path != path);
            none_are_chosen(nodes, all, directories[j].path);
            assert(held(nodes, directories[j].path) + Seq::<int>::empty() =~= held(
                nodes,
                directories[j].path,
            ));
        } else {
            none_are_chosen(nodes, origins, path);
            all_are_chosen(nodes, all, path);
            assert(Seq::<int>::empty() + all =~= all);
        }
    }
}

/// Entries are told of those with the given indexes, the root apart.
pub open spec fn are_told_of(
    tree: JolietTree,
    files: Seq<FoundModel>,
    root: JolietEntryModel,
    entries: Seq<JolietEntryModel>,
    origins: Seq<int>,
) -> bool {
    &&& entries.len() == origins.len()
    &&& entries.len() > 0
    &&& entries[0] == root
    &&& forall|e: int|
        1 <= e < entries.len() ==> #[trigger] entries[e] == joliet_read_entry(
            tree,
            files,
            origins[e],
        )
}

proof fn children_are_told(
    tree: JolietTree,
    files: Seq<FoundModel>,
    root: JolietEntryModel,
    path: Seq<char>,
    index: int,
    entries: Seq<JolietEntryModel>,
    origins: Seq<int>,
)
    requires
        0 <= index <= tree.nodes.len(),
        are_told_of(
            tree,
            files,
            root,
            entries,
            origins + chosen(tree.nodes, first_indexes(index), path),
        ),
        origins.len() > 0,
    ensures
        are_told_of(
            tree,
            files,
            root,
            joliet_child_entries_from(tree, files, path, index, entries),
            origins + held(tree.nodes, path),
        ),
    decreases tree.nodes.len() - index,
{
    if index < tree.nodes.len() {
        one_more_is_chosen(tree.nodes, path, index);
        let before = origins + chosen(tree.nodes, first_indexes(index), path);
        if is_child(tree.nodes[index], path) {
            let more = entries.push(joliet_read_entry(tree, files, index));
            assert(origins + chosen(tree.nodes, first_indexes(index + 1), path) =~= before.push(
                index,
            ));
            children_are_told(tree, files, root, path, index + 1, more, origins);
        } else {
            children_are_told(tree, files, root, path, index + 1, entries, origins);
        }
    }
}

proof fn tree_is_told_from(
    tree: JolietTree,
    files: Seq<FoundModel>,
    root: JolietEntryModel,
    index: int,
    entries: Seq<JolietEntryModel>,
    origins: Seq<int>,
)
    requires
        is_joliet_tree(tree),
        0 <= index <= tree.directories.len(),
        are_origins(tree, index, origins),
        are_told_of(tree, files, root, entries, origins),
    ensures
        are_origins(
            tree,
            tree.directories.len() as int,
            joliet_origins_from(tree, index, origins),
        ),
        are_told_of(
            tree,
            files,
            root,
            joliet_tree_entries_from(tree, files, index, entries),
            joliet_origins_from(tree, index, origins),
        ),
    decreases tree.directories.len() - index,
{
    if index < tree.directories.len() {
        let path = tree.directories[index].path;
        origins_grow(tree, index, origins);
        assert(origins + chosen(tree.nodes, first_indexes(0), path) =~= origins) by {
            assert(first_indexes(0) =~= Seq::<int>::empty());
        }
        children_are_told(tree, files, root, path, 0, entries, origins);
        tree_is_told_from(
            tree,
            files,
            root,
            index + 1,
            joliet_child_entries_from(tree, files, path, 0, entries),
            origins + held(tree.nodes, path),
        );
    }
}

/// Everything but the root lies in a directory that has its place.
pub open spec fn parents_are_listed(tree: JolietTree) -> bool {
    forall|k: int|
        0 < k < tree.nodes.len() ==> #[trigger] lies_in_first(
            tree,
            tree.directories.len() as int,
            k,
        )
}

/// Entry by entry, a Joliet tree is told of what was described: each entry once, and what
/// lies in one directory in order.
pub proof fn joliet_tree_is_told(
    tree: JolietTree,
    files: Seq<FoundModel>,
    root: JolietEntryModel,
)
    requires
        is_joliet_tree(tree),
        parents_are_listed(tree),
    ensures
        ({
            let origins = joliet_origins(tree);
            let entries = joliet_tree_entries_from(tree, files, 0, seq![root]);
            &&& are_told_of(tree, files, root, entries, origins)
            &&& origins[0] == 0
            &&& forall|e: int|
                0 <= e < origins.len() ==> 0 <= #[trigger] origins[e] < tree.nodes.len()
            &&& forall|e: int, f: int|
                0 <= e < f < origins.len() ==> #[trigger] origins[e] != #[trigger] origins[f]
            &&& forall|e: int| 1 <= e < origins.len() ==> 0 < #[trigger] origins[e]
            &&& forall|k: int| 0 <= k < tree.nodes.len() ==> #[trigger] origins.contains(k)
            &&& forall|path: Seq<char>| #[trigger]
                chosen(tree.nodes, origins, path) == held(tree.nodes, path)
        }),
{
    let nodes = tree.nodes;
    let directories = tree.directories;
    let origins = joliet_origins(tree);
    assert(are_origins(tree, 0, seq![0int]));
    tree_is_told_from(tree, files, root, 0, seq![root], seq![0int]);
    joliet_directories_follow_order(tree);
    assert(origins[0] == 0);
    assert(nodes[0].path == root_path());
    assert forall|k: int| 0 <= k < nodes.len() implies #[trigger] origins.contains(k) by {
        if k > 0 {
            assert(lies_in_first(tree, directories.len() as int, k));
            let j = choose|j: int|
                0 <= j < directories.len() && is_child(
                    nodes[k],
                    (#[trigger] directories[j]).path,
                );
            let path = directories[j].path;
            assert(chosen(nodes, origins, path) == held(nodes, path));
            chosen_are_children(nodes, first_indexes(nodes.len() as int), path);
            assert(first_indexes(nodes.len() as int)[k] == k);
            assert(first_indexes(nodes.len() as int).contains(k));
            assert(held(nodes, path).contains(k));
            chosen_are_children(nodes, origins, path);
            let i = choose|i: int| 0 <= i < held(nodes, path).len() && held(nodes, path)[i] == k;
            assert(origins.contains(chosen(nodes, origins, path)[i]));
        }
    }
    assert forall|path: Seq<char>| #[trigger] chosen(nodes, origins, path) == held(
        nodes,
        path,
    ) by {
        if exists|k: int| 0 < k < nodes.len() && is_child(#[trigger] nodes[k], path) {
            let k = choose|k: int| 0 < k < nodes.len() && is_child(#[trigger] nodes[k], path);
            assert(lies_in_first(tree, directories.len() as int, k));
            let j = choose|j: int|
                0 <= j < directories.len() && is_child(
                    nodes[k],
                    (#[trigger] directories[j]).path,
                );
            assert(directories[j].path == path);
        } else {
            assert forall|e: int| 0 <= e < origins.len() implies !is_child(
                nodes[#[trigger] origins[e]],
                path,
            ) by {
                if e > 0 {
                    assert(0 < origins[e] < nodes.len());
                }
            }
            none_are_chosen(nodes, origins, path);
            let all = first_indexes(nodes.len() as int);
            assert forall|i: int| 0 <= i < all.len() implies !is_child(
                nodes[#[trigger] all[i]],
                path,
            ) by {}
            none_are_chosen(nodes, all, path);
        }
    }
}

/// Every directory among the nodes of a tree has its place among its directories.
proof fn all_directories_are_found(tree: JolietTree, k: int) -> (at: int)
    requires
        is_joliet_tree(tree),
        tree.nodes[0].directory,
        tree.directories.len() == count_directories(tree.nodes, 0),
        0 <= k < tree.nodes.len(),
        tree.nodes[k].directory,
    ensures
        0 <= at < tree.directories.len(),
        tree.directories[at].entry == k,
        tree.directories[at].path == tree.nodes[k].path,
{
    let nodes = tree.nodes;
    let directories = tree.directories;
    joliet_directories_follow_order(tree);
    let entries = Seq::new(directories.len(), |i: int| directories[i].entry);
    assert forall|i: int| 0 <= i < directories.len() implies 0 <= (#[trigger] directories[i]).entry
        < nodes.len() && nodes[directories[i].entry].directory && directories[i].path
        == nodes[directories[i].entry].path by {
        if i > 0 {
            assert(is_held(nodes, directories, i, directories.len() as int));
        }
    }
    assert(entries.no_duplicates()) by {
        assert forall|i: int, j: int|
            0 <= i < entries.len() && 0 <= j < entries.len() && i != j implies entries[i]
            != entries[j] by {
            assert(directories[i].path != directories[j].path);
        }
    }
    entries.unique_seq_to_set();
    directories_are_counted(nodes, 0);
    let all = directory_indexes(nodes, 0);
    assert forall|e: int| #[trigger] entries.to_set().contains(e) implies all.contains(e) by {
        let i = choose|i: int| 0 <= i < entries.len() && entries[i] == e;
        assert(0 <= directories[i].entry < nodes.len());
    }
    lemma_subset_equality(entries.to_set(), all);
    assert(all.contains(k));
    assert(entries.to_set().contains(k));
    let at = choose|i: int| 0 <= i < entries.len() && entries[i] == k;
    assert(directories[at].entry == k);
    at
}

/// The records of all entries can be written.
pub proof fn all_joliet_are_written(tree: JolietTree, blocks: Seq<Block>, k: int)
    requires
        is_joliet_walkable(tree, blocks),
        parents_are_listed(tree),
        0 <= k < tree.nodes.len(),
    ensures
        k > 0 ==> is_joliet_written(tree, k),
        recording_time_bytes(tree.nodes[k].recording_time) is Ok,
        k == 0 ==> system_use_bytes(
            tree.nodes[0].path,
            tree.nodes[0].xa,
            true,
            tree.options.xa_system_use,
        ) is Ok,
{
    let nodes = tree.nodes;
    joliet_directories_follow_order(tree);
    let at = if k > 0 {
        assert(lies_in_first(tree, tree.directories.len() as int, k));
        choose|j: int|
            0 <= j < tree.directories.len() && is_child(
                nodes[k],
                (#[trigger] tree.directories[j]).path,
            )
    } else {
        0
    };
    let directory = tree.directories[at];
    let parent = tree.directories[directory.parent];
    assert(is_joliet_readable(tree, blocks, at));
    reveal(is_joliet_readable);
    let own = node_record(
        nodes[directory.entry],
        directory.extent,
        directory.length,
        seq![0u8],
        true,
        tree.options.trailing_system_use_padding,
        tree.options.xa_system_use,
    )->Ok_0;
    let above = parent_record(nodes, directory, parent, tree.options)->Ok_0;
    joliet_made_children_are_written(tree, directory.path, 0, seq![own, above]);
}

/// What is read of XA data is written as the data.
proof fn read_xa_is_written(
    path: Seq<char>,
    xa: Option<EntryXaModel>,
    directory: bool,
    system_use: bool,
)
    requires
        system_use_bytes(path, xa, directory, system_use) is Ok,
    ensures
        ({
            let data = system_use_bytes(path, xa, directory, system_use)->Ok_0;
            let again = parsed_xa(data, directory, system_use);
            &&& again is Ok
            &&& system_use_bytes(path, again->Ok_0, directory, system_use) == system_use_bytes(
                path,
                xa,
                directory,
                system_use,
            )
            &&& again->Ok_0 matches Some(read) ==> only_record_fields(read)
            &&& system_use ==> xa_bytes(path, again->Ok_0, directory) is Ok
            &&& !system_use ==> again->Ok_0 is None
        }),
{
    let data = system_use_bytes(path, xa, directory, system_use)->Ok_0;
    written_xa_is_accepted(path, xa, directory, system_use, data);
    if system_use {
        xa_bytes_survive(path, data, directory, parsed_xa(data, directory, true)->Ok_0);
    }
}

/// What is told of an entry is written as the entry.
pub proof fn entry_writes_alike(
    tree: JolietTree,
    files: Seq<FoundModel>,
    blocks: Seq<Block>,
    volume: JolietModel,
    e: int,
    k: int,
)
    requires
        is_joliet_walkable(tree, blocks),
        parents_are_listed(tree),
        sources_are_told(tree, files),
        volume.xa_system_use == tree.volume.xa_system_use,
        0 <= k < tree.nodes.len(),
        k > 0 ==> volume.entries[e] == joliet_read_entry(tree, files, k),
        k == 0 ==> volume.entries[e] == told_joliet_root(tree.volume),
    ensures
        joliet_node(volume, e) is Ok,
        writes_alike(tree.nodes[k], joliet_node(volume, e)->Ok_0),
        volume.entries[e].path == tree.volume.entries[k].path,
        (volume.entries[e].source is Some) == (tree.volume.entries[k].source is Some),
        volume.entries[e].omit_version ==> volume.entries[e].source is Some,
        volume.entries[e].xa matches Some(xa) ==> only_record_fields(xa),
        volume.xa_system_use ==> xa_bytes(
            volume.entries[e].path,
            volume.entries[e].xa,
            volume.entries[e].source is None,
        ) is Ok,
        !volume.xa_system_use ==> volume.entries[e].xa is None,
{
    let node = tree.nodes[k];
    let entry = tree.volume.entries[k];
    all_joliet_are_written(tree, blocks, k);
    assert(joliet_node(tree.volume, k) == Ok::<NodeModel, Failure>(node));
    recording_time_length(node.recording_time);
    recording_time_survives(recording_time_bytes(node.recording_time)->Ok_0);
    read_xa_is_written(node.path, node.xa, node.directory, tree.volume.xa_system_use);
    if k > 0 {
        joliet_name_is_read(tree, k);
    } else {
        assert(node.path == root_path() && node.directory);
    }
}

/// The nodes of a volume are those of its entries.
proof fn nodes_are_made(volume: JolietModel, nodes: Seq<NodeModel>, index: int)
    requires
        nodes.len() == volume.entries.len(),
        0 <= index <= nodes.len(),
        forall|e: int|
            0 <= e < nodes.len() ==> joliet_node(volume, e) == Ok::<NodeModel, Failure>(
                #[trigger] nodes[e],
            ),
    ensures
        joliet_nodes_from(volume, index, nodes.take(index)) == Ok::<Seq<NodeModel>, Failure>(nodes),
    decreases nodes.len() - index,
{
    if index < nodes.len() {
        assert(joliet_node(volume, index) == Ok::<NodeModel, Failure>(nodes[index]));
        assert(nodes.take(index).push(nodes[index]) =~= nodes.take(index + 1));
        nodes_are_made(volume, nodes, index + 1);
    } else {
        assert(nodes.take(index) =~= nodes);
    }
}

/// The nodes of what is told of a volume are written as those that they are told of.
pub proof fn joliet_nodes_are_retold(
    tree: JolietTree,
    files: Seq<FoundModel>,
    blocks: Seq<Block>,
    volume: JolietModel,
)
    requires
        is_joliet_walkable(tree, blocks),
        parents_are_listed(tree),
        sources_are_told(tree, files),
        volume.xa_system_use == tree.volume.xa_system_use,
        volume.entries == joliet_tree_entries_from(
            tree,
            files,
            0,
            seq![told_joliet_root(tree.volume)],
        ),
    ensures
        joliet_nodes(volume) is Ok,
        ({
            let told = joliet_nodes(volume)->Ok_0;
            let origins = joliet_origins(tree);
            &&& told.len() == volume.entries.len()
            &&& is_retold(tree.nodes, told, origins)
            &&& forall|e: int|
                0 <= e < origins.len() ==> writes_alike(tree.nodes[#[trigger] origins[e]], told[e])
        }),
{
    let root = told_joliet_root(tree.volume);
    let origins = joliet_origins(tree);
    joliet_tree_is_told(tree, files, root);
    let told = Seq::new(origins.len(), |e: int| joliet_node(volume, e)->Ok_0);
    assert forall|e: int| 0 <= e < origins.len() implies joliet_node(volume, e) == Ok::<
        NodeModel,
        Failure,
    >(#[trigger] told[e]) && writes_alike(tree.nodes[origins[e]], told[e]) by {
        let k = origins[e];
        assert(0 <= origins[e] < tree.nodes.len());
        if e > 0 {
            assert(0 < origins[e]);
        }
        entry_writes_alike(tree, files, blocks, volume, e, k);
    }
    nodes_are_made(volume, told, 0);
    assert(told.take(0) =~= Seq::<NodeModel>::empty());
    assert forall|e: int| 0 <= e < origins.len() implies 0 <= #[trigger] origins[e]
        < tree.nodes.len() && same_node(tree.nodes[origins[e]], told[e]) by {
        assert(joliet_node(volume, e) == Ok::<NodeModel, Failure>(told[e]));
    }
}

/// The entries that are told of a volume pass the checks that those of the volume pass.
pub proof fn joliet_entries_pass(
    iso: IsoModel,
    tree: JolietTree,
    files: Seq<FoundModel>,
    blocks: Seq<Block>,
    volume: JolietModel,
    e: int,
)
    requires
        is_joliet_walkable(tree, blocks),
        parents_are_listed(tree),
        sources_are_told(tree, files),
        volume.xa_system_use == tree.volume.xa_system_use,
        volume.entries == joliet_tree_entries_from(
            tree,
            files,
            0,
            seq![told_joliet_root(tree.volume)],
        ),
        forall|k: int|
            0 <= k < tree.volume.entries.len() ==> #[trigger] joliet_entry_check(
                iso,
                tree.volume,
                k,
            ) is Ok,
        0 <= e < volume.entries.len(),
        volume.entries[e].source matches Some(source) ==> is_file(iso, source),
    ensures
        joliet_entry_check(iso, volume, e) is Ok,
{
    let root = told_joliet_root(tree.volume);
    let origins = joliet_origins(tree);
    joliet_tree_is_told(tree, files, root);
    let k = origins[e];
    assert(0 <= origins[e] < tree.nodes.len());
    if e > 0 {
        assert(0 < origins[e]);
    }
    entry_writes_alike(tree, files, blocks, volume, e, k);
    let entry = tree.volume.entries[k];
    assert(joliet_entry_check(iso, tree.volume, k) is Ok);
    if joliet_path_before(volume.entries, e, entry.path) {
        let f = choose|f: int| 0 <= f < e && (#[trigger] volume.entries[f]).path == entry.path;
        assert(0 <= origins[f] < tree.nodes.len());
        if f > 0 {
            assert(0 < origins[f]);
        }
        entry_writes_alike(tree, files, blocks, volume, f, origins[f]);
        assert(origins[f] != origins[e]);
        let a = tree.volume.entries[origins[f]];
        let b = tree.volume.entries[origins[e]];
        assert(a.path == b.path);
        assert(false);
    }
    if e > 0 {
        let parent = parent_of(entry.path);
        let at = find_joliet_from(tree.volume.entries, parent, 0);
        found_joliet_is_there(tree.volume.entries, parent, 0);
        assert(joliet_parent_check(tree.volume.entries, entry.path) is Ok);
        assert(origins.contains(at));
        let f = choose|f: int| 0 <= f < origins.len() && origins[f] == at;
        if f > 0 {
            assert(0 < origins[f]);
        }
        entry_writes_alike(tree, files, blocks, volume, f, at);
        let again = find_joliet_from(volume.entries, parent, 0);
        found_joliet_is_there(volume.entries, parent, 0);
        assert(volume.entries[f].path == parent);
        assert(again < volume.entries.len());
        assert(0 <= origins[again] < tree.nodes.len());
        if again > 0 {
            assert(0 < origins[again]);
        }
        entry_writes_alike(tree, files, blocks, volume, again, origins[again]);
        assert(origins[again] == at) by {
            assert(tree.volume.entries[origins[again]].path == tree.volume.entries[at].path);
        }
    }
}

proof fn found_joliet_is_there(entries: Seq<JolietEntryModel>, path: Seq<char>, index: int)
    requires
        0 <= index <= entries.len(),
    ensures
        index <= find_joliet_from(entries, path, index) <= entries.len(),
        find_joliet_from(entries, path, index) < entries.len() ==> entries[find_joliet_from(
            entries,
            path,
            index,
        )].path == path,
        find_joliet_from(entries, path, index) == entries.len() ==> forall|k: int|
            index <= k < entries.len() ==> (#[trigger] entries[k]).path != path,
    decreases entries.len() - index,
{
    if index < entries.len() && entries[index].path != path {
        found_joliet_is_there(entries, path, index + 1);
    }
}

/// Where every entry but the root has its parent among the directories of the volume,
/// everything lies in a directory that has its place.
pub proof fn parents_have_places(tree: JolietTree)
    requires
        is_joliet_tree(tree),
        forall|k: int|
            0 < k < tree.volume.entries.len() ==> joliet_parent_check(
                tree.volume.entries,
                (#[trigger] tree.volume.entries[k]).path,
            ) is Ok,
        tree.directories.len() == count_directories(tree.nodes, 0),
    ensures
        parents_are_listed(tree),
{
    let entries = tree.volume.entries;
    assert(joliet_node(tree.volume, 0) == Ok::<NodeModel, Failure>(tree.nodes[0]));
    assert forall|k: int| 0 < k < tree.nodes.len() implies #[trigger] lies_in_first(
        tree,
        tree.directories.len() as int,
        k,
    ) by {
        assert(joliet_parent_check(entries, entries[k].path) is Ok);
        let parent = parent_of(entries[k].path);
        found_joliet_is_there(entries, parent, 0);
        let at = find_joliet_from(entries, parent, 0);
        assert(joliet_node(tree.volume, at) == Ok::<NodeModel, Failure>(tree.nodes[at]));
        assert(joliet_node(tree.volume, k) == Ok::<NodeModel, Failure>(tree.nodes[k]));
        let j = all_directories_are_found(tree, at);
        assert(entries[0].path != entries[k].path);
        assert(is_child(tree.nodes[k], tree.directories[j].path));
    }
}

/// The directories of a tree are as many as its nodes have.
pub proof fn order_is_counted(
    nodes: Seq<NodeModel>,
    index: int,
    found: Seq<PlacementModel>,
    unreachable: ErrorKind,
)
    ensures
        directory_order_from(nodes, index, found, unreachable) matches Ok(all) ==> all.len()
            == count_directories(nodes, 0),
    decreases count_directories(nodes, 0) + 1 - index,
{
    if found.len() <= count_directories(nodes, 0) && 0 <= index < found.len() {
        order_is_counted(
            nodes,
            index + 1,
            subdirectories_from(nodes, found[index].path, index, 0, found),
            unreachable,
        );
    }
}

} // verus!
