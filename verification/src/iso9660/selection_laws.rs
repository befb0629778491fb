//! What lies in a directory, as a selection of the nodes of a tree.
use vstd::prelude::*;
use vstd::relations::injective_on;
use vstd::set_lib::{lemma_int_range, lemma_map_size, set_int_range};

use crate::error::{ErrorKind, Failure};
use crate::iso9660::directory::{child_record, child_records_from, SpotModel};
use crate::iso9660::path_table::PlacementModel;
use crate::iso9660::record::size_of_record;
use crate::iso9660::tree::{
    child_lengths_from, count_directories, directory_order_from, is_child, is_subdirectory,
    subdirectories_from, system_use_size, unplaced, NodeModel,
};

verus! {

/// Those of the given indexes whose nodes lie in a directory.
pub open spec fn chosen(nodes: Seq<NodeModel>, indexes: Seq<int>, path: Seq<char>) -> Seq<int>
    decreases indexes.len(),
{
    if indexes.len() == 0 {
        Seq::empty()
    } else {
        let before = chosen(nodes, indexes.drop_last(), path);
        if is_child(nodes[indexes.last()], path) {
            before.push(indexes.last())
        } else {
            before
        }
    }
}

/// The first `count` indexes.
pub open spec fn first_indexes(count: int) -> Seq<int> {
    Seq::new(count as nat, |i: int| i)
}

/// The indexes of the nodes that lie in a directory, in order.
pub open spec fn held(nodes: Seq<NodeModel>, path: Seq<char>) -> Seq<int> {
    chosen(nodes, first_indexes(nodes.len() as int), path)
}

/// One more index is chosen or not.
pub proof fn one_more_is_chosen(nodes: Seq<NodeModel>, path: Seq<char>, index: int)
    requires
        0 <= index,
    ensures
        chosen(nodes, first_indexes(index + 1), path) == if is_child(nodes[index], path) {
            chosen(nodes, first_indexes(index), path).push(index)
        } else {
            chosen(nodes, first_indexes(index), path)
        },
{
    let more = first_indexes(index + 1);
    assert(more.drop_last() =~= first_indexes(index));
    assert(more.last() == index);
}

/// What is chosen lies in the directory, and was among what it is chosen from.
pub proof fn chosen_are_children(nodes: Seq<NodeModel>, indexes: Seq<int>, path: Seq<char>)
    ensures
        ({
            let all = chosen(nodes, indexes, path);
            &&& forall|i: int|
                0 <= i < all.len() ==> is_child(nodes[#[trigger] all[i]], path)
                    && indexes.contains(all[i])
            &&& forall|k: int|
                #[trigger] indexes.contains(k) && is_child(nodes[k], path) ==> all.contains(k)
        }),
    decreases indexes.len(),
{
    if indexes.len() > 0 {
        let init = indexes.drop_last();
        chosen_are_children(nodes, init, path);
        let before = chosen(nodes, init, path);
        let all = chosen(nodes, indexes, path);
        assert forall|i: int| 0 <= i < all.len() implies is_child(nodes[#[trigger] all[i]], path)
            && indexes.contains(all[i]) by {
            if i < before.len() {
                assert(all[i] == before[i]);
                assert(init.contains(before[i]));
                let j = choose|j: int| 0 <= j < init.len() && init[j] == before[i];
                assert(indexes[j] == before[i]);
            } else {
                assert(indexes[indexes.len() - 1] == all[i]);
            }
        }
        assert forall|k: int| #[trigger] indexes.contains(k) && is_child(
            nodes[k],
            path,
        ) implies all.contains(k) by {
            let j = choose|j: int| 0 <= j < indexes.len() && indexes[j] == k;
            if j < init.len() {
                assert(init[j] == k);
                assert(init.contains(k));
                let i = choose|i: int| 0 <= i < before.len() && before[i] == k;
                assert(all[i] == k);
            } else {
                assert(all[all.len() - 1] == k);
            }
        }
    }
}

/// What is chosen of two runs of indexes is chosen of each.
pub proof fn chosen_of_both(nodes: Seq<NodeModel>, left: Seq<int>, right: Seq<int>, path: Seq<char>)
    ensures
        chosen(nodes, left + right, path) == chosen(nodes, left, path) + chosen(nodes, right, path),
    decreases right.len(),
{
    let both = left + right;
    if right.len() == 0 {
        assert(both =~= left);
        assert(chosen(nodes, left, path) + chosen(nodes, right, path) =~= chosen(
            nodes,
            left,
            path,
        ));
    } else {
        let init = right.drop_last();
        chosen_of_both(nodes, left, init, path);
        assert(both.drop_last() =~= left + init);
        assert(both.last() == right.last());
        assert(chosen(nodes, both, path) =~= chosen(nodes, left, path) + chosen(
            nodes,
            right,
            path,
        ));
    }
}

/// Where all lies in the directory, all is chosen.
pub proof fn all_are_chosen(nodes: Seq<NodeModel>, indexes: Seq<int>, path: Seq<char>)
    requires
        forall|i: int| 0 <= i < indexes.len() ==> is_child(nodes[#[trigger] indexes[i]], path),
    ensures
        chosen(nodes, indexes, path) == indexes,
    decreases indexes.len(),
{
    if indexes.len() > 0 {
        let init = indexes.drop_last();
        assert forall|i: int| 0 <= i < init.len() implies is_child(
            nodes[#[trigger] init[i]],
            path,
        ) by {
            assert(init[i] == indexes[i]);
        }
        all_are_chosen(nodes, init, path);
        assert(is_child(nodes[indexes[indexes.len() - 1]], path));
        assert(init.push(indexes.last()) =~= indexes);
    }
}

/// Where nothing lies in the directory, nothing is chosen.
pub proof fn none_are_chosen(nodes: Seq<NodeModel>, indexes: Seq<int>, path: Seq<char>)
    requires
        forall|i: int| 0 <= i < indexes.len() ==> !is_child(nodes[#[trigger] indexes[i]], path),
    ensures
        chosen(nodes, indexes, path) == Seq::<int>::empty(),
    decreases indexes.len(),
{
    if indexes.len() > 0 {
        let init = indexes.drop_last();
        assert forall|i: int| 0 <= i < init.len() implies !is_child(
            nodes[#[trigger] init[i]],
            path,
        ) by {
            assert(init[i] == indexes[i]);
        }
        none_are_chosen(nodes, init, path);
        assert(!is_child(nodes[indexes[indexes.len() - 1]], path));
    }
}

/// What lies in a directory comes in order, each once.
pub proof fn held_are_ordered(nodes: Seq<NodeModel>, path: Seq<char>, count: int)
    requires
        0 <= count <= nodes.len(),
    ensures
        ({
            let all = chosen(nodes, first_indexes(count), path);
            &&& forall|i: int| 0 <= i < all.len() ==> 0 <= #[trigger] all[i] < count
            &&& forall|i: int, j: int|
                0 <= i < j < all.len() ==> #[trigger] all[i] < #[trigger] all[j]
        }),
    decreases count,
{
    if count > 0 {
        held_are_ordered(nodes, path, count - 1);
        one_more_is_chosen(nodes, path, count - 1);
    }
}

/// What is told of a tree's nodes: for each node that is told, the index of the one
/// it is told of, and the same path and place.
pub open spec fn same_node(node: NodeModel, told: NodeModel) -> bool {
    &&& told.path == node.path
    &&& told.parent == node.parent
    &&& told.directory == node.directory
    &&& told.identifier == node.identifier
    &&& told.system_use == node.system_use
}

/// The nodes of a tree are told in another order, in which what lies in one directory
/// stays in order.
pub open spec fn is_retold(nodes: Seq<NodeModel>, told: Seq<NodeModel>, origins: Seq<int>) -> bool {
    &&& told.len() == origins.len()
    &&& told.len() > 0
    &&& origins[0] == 0
    &&& forall|e: int|
        0 <= e < origins.len() ==> 0 <= #[trigger] origins[e] < nodes.len() && same_node(
            nodes[origins[e]],
            told[e],
        )
    &&& forall|e: int, f: int|
        0 <= e < f < origins.len() ==> #[trigger] origins[e] != #[trigger] origins[f]
    &&& forall|k: int| 0 <= k < nodes.len() ==> #[trigger] origins.contains(k)
    &&& forall|path: Seq<char>| #[trigger]
        chosen(nodes, origins, path) == held(nodes, path)
}

/// The nodes of which those that were told are told.
pub open spec fn origins_of(origins: Seq<int>, indexes: Seq<int>) -> Seq<int> {
    Seq::new(indexes.len(), |i: int| origins[indexes[i]])
}

proof fn choice_is_retold(
    nodes: Seq<NodeModel>,
    told: Seq<NodeModel>,
    origins: Seq<int>,
    path: Seq<char>,
    count: int,
)
    requires
        is_retold(nodes, told, origins),
        0 <= count <= told.len(),
    ensures
        origins_of(origins, chosen(told, first_indexes(count), path)) == chosen(
            nodes,
            origins.take(count),
            path,
        ),
    decreases count,
{
    let indexes = first_indexes(count);
    if count == 0 {
        assert(origins_of(origins, chosen(told, indexes, path)) =~= Seq::<int>::empty());
    } else {
        choice_is_retold(nodes, told, origins, path, count - 1);
        one_more_is_chosen(told, path, count - 1);
        let some = origins.take(count);
        assert(some.drop_last() =~= origins.take(count - 1));
        assert(same_node(nodes[origins[count - 1]], told[count - 1]));
        assert(some.last() == origins[count - 1]);
        assert(origins_of(origins, chosen(told, indexes, path)) =~= chosen(nodes, some, path));
    }
}

/// What lies in a directory is told in order.
pub proof fn held_are_retold(
    nodes: Seq<NodeModel>,
    told: Seq<NodeModel>,
    origins: Seq<int>,
    path: Seq<char>,
)
    requires
        is_retold(nodes, told, origins),
    ensures
        origins_of(origins, held(told, path)) == held(nodes, path),
{
    choice_is_retold(nodes, told, origins, path, told.len() as int);
    assert(origins.take(told.len() as int) =~= origins);
    assert(chosen(nodes, origins, path) == held(nodes, path));
}

/// The sizes of the records of nodes.
pub open spec fn sizes_of(nodes: Seq<NodeModel>, indexes: Seq<int>) -> Seq<int> {
    Seq::new(
        indexes.len(),
        |i: int|
            size_of_record(
                nodes[indexes[i]].identifier.len() as int,
                system_use_size(nodes[indexes[i]].system_use),
            ),
    )
}

proof fn lengths_are_of_held(nodes: Seq<NodeModel>, path: Seq<char>, index: int, first: Seq<int>)
    requires
        0 <= index <= nodes.len(),
    ensures
        child_lengths_from(
            nodes,
            path,
            index,
            first + sizes_of(nodes, chosen(nodes, first_indexes(index), path)),
        ) == first + sizes_of(nodes, held(nodes, path)),
    decreases nodes.len() - index,
{
    if index < nodes.len() {
        lengths_are_of_held(nodes, path, index + 1, first);
        one_more_is_chosen(nodes, path, index);
        let before = chosen(nodes, first_indexes(index), path);
        if is_child(nodes[index], path) {
            assert((first + sizes_of(nodes, before)).push(
                size_of_record(
                    nodes[index].identifier.len() as int,
                    system_use_size(nodes[index].system_use),
                ),
            ) =~= first + sizes_of(nodes, before.push(index)));
        }
    }
}

/// The records of a directory have the sizes that were told.
pub proof fn lengths_are_retold(
    nodes: Seq<NodeModel>,
    told: Seq<NodeModel>,
    origins: Seq<int>,
    path: Seq<char>,
    first: Seq<int>,
)
    requires
        is_retold(nodes, told, origins),
    ensures
        child_lengths_from(told, path, 0, first) == child_lengths_from(nodes, path, 0, first),
{
    lengths_are_of_held(nodes, path, 0, first);
    lengths_are_of_held(told, path, 0, first);
    assert(first + sizes_of(nodes, chosen(nodes, first_indexes(0), path)) =~= first);
    assert(first + sizes_of(told, chosen(told, first_indexes(0), path)) =~= first);
    held_are_retold(nodes, told, origins, path);
    held_are_ordered(told, path, told.len() as int);
    let all = held(told, path);
    assert(origins_of(origins, all).len() == all.len());
    assert forall|i: int| 0 <= i < all.len() implies sizes_of(told, all)[i] == sizes_of(
        nodes,
        held(nodes, path),
    )[i] by {
        assert(origins_of(origins, all)[i] == origins[all[i]]);
        assert(same_node(nodes[origins[all[i]]], told[all[i]]));
    }
    assert(sizes_of(told, all) =~= sizes_of(nodes, held(nodes, path)));
}

/// The directories among nodes.
pub open spec fn placements_of(nodes: Seq<NodeModel>, indexes: Seq<int>, parent: int) -> Seq<
    PlacementModel,
>
    decreases indexes.len(),
{
    if indexes.len() == 0 {
        Seq::empty()
    } else {
        let before = placements_of(nodes, indexes.drop_last(), parent);
        let node = nodes[indexes.last()];
        if node.directory {
            before.push(unplaced(node.path, node.identifier, parent, indexes.last()))
        } else {
            before
        }
    }
}

proof fn subdirectories_are_of_held(
    nodes: Seq<NodeModel>,
    path: Seq<char>,
    parent: int,
    index: int,
    first: Seq<PlacementModel>,
)
    requires
        0 <= index <= nodes.len(),
    ensures
        subdirectories_from(
            nodes,
            path,
            parent,
            index,
            first + placements_of(nodes, chosen(nodes, first_indexes(index), path), parent),
        ) == first + placements_of(nodes, held(nodes, path), parent),
    decreases nodes.len() - index,
{
    if index < nodes.len() {
        subdirectories_are_of_held(nodes, path, parent, index + 1, first);
        one_more_is_chosen(nodes, path, index);
        let before = chosen(nodes, first_indexes(index), path);
        if is_child(nodes[index], path) {
            assert(before.push(index).drop_last() =~= before);
        }
        if is_subdirectory(nodes[index], path) {
            assert((first + placements_of(nodes, before, parent)).push(
                unplaced(nodes[index].path, nodes[index].identifier, parent, index),
            ) =~= first + placements_of(nodes, before.push(index), parent));
        }
    }
}

/// What lies in a directory, and the directories among it.
pub proof fn subdirectories_are_held(
    nodes: Seq<NodeModel>,
    path: Seq<char>,
    parent: int,
    first: Seq<PlacementModel>,
)
    ensures
        subdirectories_from(nodes, path, parent, 0, first) == first + placements_of(
            nodes,
            held(nodes, path),
            parent,
        ),
{
    subdirectories_are_of_held(nodes, path, parent, 0, first);
    assert(first + placements_of(nodes, chosen(nodes, first_indexes(0), path), parent) =~= first);
}

/// Directories that are told are those that they are told of, but for their entries.
pub open spec fn are_retold(
    directories: Seq<PlacementModel>,
    told: Seq<PlacementModel>,
    origins: Seq<int>,
) -> bool {
    &&& told.len() == directories.len()
    &&& forall|i: int|
        0 <= i < told.len() ==> (#[trigger] told[i]) == (PlacementModel {
            entry: told[i].entry,
            ..directories[i]
        }) && 0 <= told[i].entry < origins.len() && origins[told[i].entry] == directories[i].entry
}

proof fn placements_are_retold(
    nodes: Seq<NodeModel>,
    told: Seq<NodeModel>,
    origins: Seq<int>,
    indexes: Seq<int>,
    parent: int,
)
    requires
        is_retold(nodes, told, origins),
        forall|i: int| 0 <= i < indexes.len() ==> 0 <= #[trigger] indexes[i] < told.len(),
    ensures
        are_retold(
            placements_of(nodes, origins_of(origins, indexes), parent),
            placements_of(told, indexes, parent),
            origins,
        ),
    decreases indexes.len(),
{
    if indexes.len() > 0 {
        let init = indexes.drop_last();
        assert forall|i: int| 0 <= i < init.len() implies 0 <= #[trigger] init[i] < told.len() by {
            assert(init[i] == indexes[i]);
        }
        placements_are_retold(nodes, told, origins, init, parent);
        assert(origins_of(origins, indexes).drop_last() =~= origins_of(origins, init));
        let last = indexes[indexes.len() - 1];
        assert(same_node(nodes[origins[last]], told[last]));
        let before = placements_of(nodes, origins_of(origins, init), parent);
        let told_before = placements_of(told, init, parent);
        let all = placements_of(nodes, origins_of(origins, indexes), parent);
        let told_all = placements_of(told, indexes, parent);
        assert forall|i: int| 0 <= i < told_all.len() implies (#[trigger] told_all[i]) == (
        PlacementModel { entry: told_all[i].entry, ..all[i] }) && 0 <= told_all[i].entry
            < origins.len() && origins[told_all[i].entry] == all[i].entry by {
            if i < told_before.len() {
                assert(told_all[i] == told_before[i]);
                assert(all[i] == before[i]);
            }
        }
    }
}

/// The indexes of directories, from one on.
pub open spec fn directory_indexes(nodes: Seq<NodeModel>, index: int) -> Set<int> {
    set_int_range(index, nodes.len() as int).filter(|i: int| nodes[i].directory)
}

pub proof fn directories_are_counted(nodes: Seq<NodeModel>, index: int)
    requires
        0 <= index <= nodes.len(),
    ensures
        directory_indexes(nodes, index).finite(),
        directory_indexes(nodes, index).len() == count_directories(nodes, index),
    decreases nodes.len() - index,
{
    lemma_int_range(index, nodes.len() as int);
    set_int_range(index, nodes.len() as int).lemma_len_filter(|i: int| nodes[i].directory);
    let all = directory_indexes(nodes, index);
    if index == nodes.len() {
        assert(all =~= Set::empty());
    } else {
        directories_are_counted(nodes, index + 1);
        let rest = directory_indexes(nodes, index + 1);
        if nodes[index].directory {
            assert(all =~= rest.insert(index));
            assert(!rest.contains(index));
        } else {
            assert(all =~= rest);
        }
    }
}

/// As many directories are told as there are.
pub proof fn count_is_retold(nodes: Seq<NodeModel>, told: Seq<NodeModel>, origins: Seq<int>)
    requires
        is_retold(nodes, told, origins),
    ensures
        count_directories(told, 0) == count_directories(nodes, 0),
{
    directories_are_counted(nodes, 0);
    directories_are_counted(told, 0);
    let origin = |e: int| origins[e];
    let from = directory_indexes(told, 0);
    let to = directory_indexes(nodes, 0);
    assert(injective_on(origin, from)) by {
        assert forall|e: int, f: int|
            from.contains(e) && from.contains(f) && #[trigger] origin(e) == #[trigger] origin(
                f,
            ) implies e == f by {
            assert(origins[e] == origins[f]);
            if e < f {
                assert(origins[e] != origins[f]);
            } else if f < e {
                assert(origins[f] != origins[e]);
            }
        }
    }
    assert forall|k: int| to.contains(k) implies #[trigger] from.map(origin).contains(k) by {
        assert(origins.contains(k));
        let e = choose|e: int| 0 <= e < origins.len() && origins[e] == k;
        assert(same_node(nodes[origins[e]], told[e]));
        assert(from.contains(e) && origin(e) == k);
    }
    assert forall|k: int| #[trigger] from.map(origin).contains(k) implies to.contains(k) by {
        let e = choose|e: int| from.contains(e) && origin(e) == k;
        assert(same_node(nodes[origins[e]], told[e]));
    }
    assert(from.map(origin) =~= to);
    lemma_map_size(from, to, origin);
}

/// The directories of a tree are told in their order.
pub proof fn order_is_retold(
    nodes: Seq<NodeModel>,
    told: Seq<NodeModel>,
    origins: Seq<int>,
    index: int,
    found: Seq<PlacementModel>,
    told_found: Seq<PlacementModel>,
    unreachable: ErrorKind,
)
    requires
        is_retold(nodes, told, origins),
        are_retold(found, told_found, origins),
        directory_order_from(nodes, index, found, unreachable) is Ok,
    ensures
        ({
            let all = directory_order_from(nodes, index, found, unreachable);
            let told_all = directory_order_from(told, index, told_found, unreachable);
            told_all is Ok && are_retold(all->Ok_0, told_all->Ok_0, origins)
        }),
    decreases count_directories(nodes, 0) + 1 - index,
{
    count_is_retold(nodes, told, origins);
    let expected = count_directories(nodes, 0);
    if found.len() <= expected && 0 <= index < found.len() {
        let path = found[index].path;
        assert(told_found[index].path == path);
        subdirectories_are_held(nodes, path, index, found);
        subdirectories_are_held(told, path, index, told_found);
        held_are_retold(nodes, told, origins, path);
        held_are_ordered(told, path, told.len() as int);
        placements_are_retold(nodes, told, origins, held(told, path), index);
        let more = subdirectories_from(nodes, path, index, 0, found);
        let told_more = subdirectories_from(told, path, index, 0, told_found);
        let added = placements_of(nodes, held(nodes, path), index);
        let told_added = placements_of(told, held(told, path), index);
        assert forall|i: int| 0 <= i < told_more.len() implies (#[trigger] told_more[i]) == (
        PlacementModel { entry: told_more[i].entry, ..more[i] }) && 0 <= told_more[i].entry
            < origins.len() && origins[told_more[i].entry] == more[i].entry by {
            if i < told_found.len() {
                assert(told_more[i] == told_found[i]);
                assert(more[i] == found[i]);
            } else {
                assert(told_more[i] == told_added[i - told_found.len()]);
                assert(more[i] == added[i - found.len()]);
            }
        }
        order_is_retold(nodes, told, origins, index + 1, more, told_more, unreachable);
    }
}

/// The records of nodes.
pub open spec fn records_of(
    nodes: Seq<NodeModel>,
    spots: Seq<SpotModel>,
    trailing: bool,
    indexes: Seq<int>,
) -> Seq<Seq<u8>> {
    Seq::new(
        indexes.len(),
        |i: int| child_record(nodes[indexes[i]], spots[indexes[i]], trailing)->Ok_0,
    )
}

proof fn records_are_of_held(
    nodes: Seq<NodeModel>,
    spots: Seq<SpotModel>,
    path: Seq<char>,
    trailing: bool,
    index: int,
    first: Seq<Seq<u8>>,
)
    requires
        0 <= index <= nodes.len(),
        forall|k: int|
            index <= k < nodes.len() && is_child(#[trigger] nodes[k], path) ==> child_record(
                nodes[k],
                spots[k],
                trailing,
            ) is Ok,
    ensures
        child_records_from(
            nodes,
            spots,
            path,
            trailing,
            index,
            first + records_of(
                nodes,
                spots,
                trailing,
                chosen(nodes, first_indexes(index), path),
            ),
        ) == Ok::<Seq<Seq<u8>>, Failure>(
            first + records_of(nodes, spots, trailing, held(nodes, path)),
        ),
    decreases nodes.len() - index,
{
    if index < nodes.len() {
        records_are_of_held(nodes, spots, path, trailing, index + 1, first);
        one_more_is_chosen(nodes, path, index);
        let before = chosen(nodes, first_indexes(index), path);
        if is_child(nodes[index], path) {
            assert((first + records_of(nodes, spots, trailing, before)).push(
                child_record(nodes[index], spots[index], trailing)->Ok_0,
            ) =~= first + records_of(nodes, spots, trailing, before.push(index)));
        }
    }
}

/// The records of what lies in a directory are told as they are, where each of them
/// is.
pub proof fn records_are_retold(
    nodes: Seq<NodeModel>,
    spots: Seq<SpotModel>,
    told: Seq<NodeModel>,
    told_spots: Seq<SpotModel>,
    origins: Seq<int>,
    path: Seq<char>,
    trailing: bool,
    told_trailing: bool,
    first: Seq<Seq<u8>>,
)
    requires
        is_retold(nodes, told, origins),
        forall|k: int|
            0 <= k < nodes.len() && is_child(#[trigger] nodes[k], path) ==> child_record(
                nodes[k],
                spots[k],
                trailing,
            ) is Ok,
        forall|e: int|
            0 <= e < told.len() && is_child(#[trigger] told[e], path) ==> child_record(
                told[e],
                told_spots[e],
                told_trailing,
            ) == child_record(nodes[origins[e]], spots[origins[e]], trailing),
    ensures
        child_records_from(told, told_spots, path, told_trailing, 0, first) == child_records_from(
            nodes,
            spots,
            path,
            trailing,
            0,
            first,
        ),
        child_records_from(nodes, spots, path, trailing, 0, first) is Ok,
{
    assert forall|e: int| 0 <= e < told.len() && is_child(
        #[trigger] told[e],
        path,
    ) implies child_record(told[e], told_spots[e], told_trailing) is Ok by {
        assert(same_node(nodes[origins[e]], told[e]));
        assert(is_child(nodes[origins[e]], path));
    }
    records_are_of_held(nodes, spots, path, trailing, 0, first);
    records_are_of_held(told, told_spots, path, told_trailing, 0, first);
    assert(first + records_of(nodes, spots, trailing, chosen(nodes, first_indexes(0), path))
        =~= first);
    assert(first + records_of(told, told_spots, told_trailing, chosen(told, first_indexes(0), path))
        =~= first);
    held_are_retold(nodes, told, origins, path);
    held_are_ordered(told, path, told.len() as int);
    chosen_are_children(told, first_indexes(told.len() as int), path);
    let all = held(told, path);
    assert(origins_of(origins, all).len() == all.len());
    assert forall|i: int| 0 <= i < all.len() implies records_of(
        told,
        told_spots,
        told_trailing,
        all,
    )[i] == records_of(nodes, spots, trailing, held(nodes, path))[i] by {
        assert(origins_of(origins, all)[i] == origins[all[i]]);
        assert(is_child(told[all[i]], path));
    }
    assert(records_of(told, told_spots, told_trailing, all) =~= records_of(
        nodes,
        spots,
        trailing,
        held(nodes, path),
    ));
}

} // verus!
