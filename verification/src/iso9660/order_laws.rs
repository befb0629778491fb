//! The directories of a tree come in an order in which each follows the one that
//! holds it.
use vstd::prelude::*;

use crate::error::ErrorKind;
use crate::iso9660::path_table::PlacementModel;
use crate::iso9660::tree::{
    count_directories, directories_of, directory_order_from, is_subdirectory, subdirectories_from,
    unplaced, NodeModel,
};
use crate::text::{parent_of, root_path};

verus! {

/// Nodes of a tree: the root comes first, no two have one path, and each names the
/// directory that its path says.
pub open spec fn are_nodes(nodes: Seq<NodeModel>) -> bool {
    &&& nodes.len() > 0
    &&& nodes[0].path == root_path()
    &&& forall|i: int| 0 <= i < nodes.len() ==> (#[trigger] nodes[i]).parent == parent_of(
        nodes[i].path,
    )
    &&& forall|i: int, j: int|
        0 <= i < j < nodes.len() ==> (#[trigger] nodes[i]).path != (#[trigger] nodes[j]).path
}

/// A directory of a tree after the root, held by one of the first `count`.
pub open spec fn is_held(nodes: Seq<NodeModel>, found: Seq<PlacementModel>, index: int, count: int) -> bool {
    let directory = found[index];
    &&& 0 <= directory.parent < count
    &&& directory.parent < index
    &&& 0 < directory.entry < nodes.len()
    &&& directory.path == nodes[directory.entry].path
    &&& directory.name == nodes[directory.entry].identifier
    &&& directory.path != root_path()
    &&& nodes[directory.entry].directory
    &&& parent_of(directory.path) == found[directory.parent].path
}

/// Directories of a tree in order: the root, and then others, each held by one of
/// the first `count`; no two have one path.
pub open spec fn are_ordered(nodes: Seq<NodeModel>, found: Seq<PlacementModel>, count: int) -> bool {
    &&& found.len() > 0
    &&& found[0].path == root_path()
    &&& found[0].name == seq![0u8]
    &&& found[0].entry == 0
    &&& found[0].parent == 0
    &&& forall|m: int| 1 <= m < found.len() ==> #[trigger] is_held(nodes, found, m, count)
    &&& forall|i: int, j: int|
        0 <= i < j < found.len() ==> (#[trigger] found[i]).path != (#[trigger] found[j]).path
}

/// The directories that lie in one more directory follow in order.
proof fn subdirectories_are_ordered(
    nodes: Seq<NodeModel>,
    parent: int,
    base: int,
    index: int,
    found: Seq<PlacementModel>,
)
    requires
        are_nodes(nodes),
        0 <= index <= nodes.len(),
        0 <= parent < base <= found.len(),
        are_ordered(nodes, found, parent + 1),
        forall|m: int| 1 <= m < base ==> (#[trigger] found[m]).parent < parent,
        forall|m: int|
            base <= m < found.len() ==> (#[trigger] found[m]).parent == parent && found[m].entry
                < index,
    ensures
        ({
            let all = subdirectories_from(nodes, found[parent].path, parent, index, found);
            &&& are_ordered(nodes, all, parent + 1)
            &&& all.len() >= found.len()
            &&& all.take(found.len() as int) == found
            &&& forall|m: int| base <= m < all.len() ==> (#[trigger] all[m]).parent == parent
        }),
    decreases nodes.len() - index,
{
    let path = found[parent].path;
    if index < nodes.len() {
        if is_subdirectory(nodes[index], path) {
            let next = unplaced(nodes[index].path, nodes[index].identifier, parent, index);
            let more = found.push(next);
            assert(index > 0);
            assert forall|m: int| 1 <= m < more.len() implies #[trigger] is_held(
                nodes,
                more,
                m,
                parent + 1,
            ) by {
                if m < found.len() {
                    assert(is_held(nodes, found, m, parent + 1));
                    assert(more[m] == found[m]);
                    assert(more[found[m].parent] == found[found[m].parent]);
                } else {
                    assert(more[parent] == found[parent]);
                }
            }
            assert forall|i: int, j: int| 0 <= i < j < more.len() implies (#[trigger] more[i]).path
                != (#[trigger] more[j]).path by {
                if j == found.len() {
                    assert(more[i] == found[i]);
                    if i == 0 {
                        assert(next.path != root_path());
                    } else {
                        assert(is_held(nodes, found, i, parent + 1));
                        if i < base {
                            let held = found[i].parent;
                            assert(found[held].path != found[parent].path);
                            assert(parent_of(next.path) == found[parent].path);
                        } else {
                            assert(nodes[found[i].entry].path != nodes[index].path);
                        }
                    }
                } else {
                    assert(more[i] == found[i] && more[j] == found[j]);
                }
            }
            assert forall|m: int| base <= m < more.len() implies (#[trigger] more[m]).parent
                == parent && more[m].entry < index + 1 by {
                if m < found.len() {
                    assert(more[m] == found[m]);
                }
            }
            assert forall|m: int| 1 <= m < base implies (#[trigger] more[m]).parent < parent by {
                assert(more[m] == found[m]);
            }
            subdirectories_are_ordered(nodes, parent, base, index + 1, more);
            let all = subdirectories_from(nodes, path, parent, index + 1, more);
            assert(all.take(found.len() as int) =~= all.take(more.len() as int).take(
                found.len() as int,
            ));
            assert(more.take(found.len() as int) =~= found);
        } else {
            subdirectories_are_ordered(nodes, parent, base, index + 1, found);
        }
    } else {
        assert(found.take(found.len() as int) =~= found);
    }
}

/// Directories that were found in order stay first as more follow.
pub open spec fn in_progress(nodes: Seq<NodeModel>, found: Seq<PlacementModel>, index: int) -> bool {
    &&& are_ordered(nodes, found, if index == 0 {
        1
    } else {
        index
    })
    &&& forall|m: int| 1 <= m < found.len() ==> (#[trigger] found[m]).parent < index
    &&& 0 <= index <= found.len()
    &&& index == 0 ==> found.len() == 1
}

/// One more directory's subdirectories keep the order.
pub proof fn progress_is_kept(nodes: Seq<NodeModel>, found: Seq<PlacementModel>, index: int)
    requires
        are_nodes(nodes),
        in_progress(nodes, found, index),
        index < found.len(),
    ensures
        ({
            let all = subdirectories_from(nodes, found[index].path, index, 0, found);
            &&& in_progress(nodes, all, index + 1)
            &&& all.len() >= found.len()
            &&& all.take(found.len() as int) == found
            &&& forall|m: int| found.len() <= m < all.len() ==> (#[trigger] all[m]).parent == index
        }),
{
    assert forall|m: int| 1 <= m < found.len() implies #[trigger] is_held(
        nodes,
        found,
        m,
        index + 1,
    ) by {
        assert(is_held(nodes, found, m, if index == 0 {
            1
        } else {
            index
        }));
    }
    subdirectories_are_ordered(nodes, index, found.len() as int, 0, found);
    let all = subdirectories_from(nodes, found[index].path, index, 0, found);
    assert forall|m: int| 1 <= m < all.len() implies (#[trigger] all[m]).parent < index + 1 by {
        if m < found.len() {
            assert(all.take(found.len() as int)[m] == all[m]);
        }
    }
}

/// The directories of a tree begin with those that were found first, and come in
/// order.
pub proof fn order_is_kept(
    nodes: Seq<NodeModel>,
    index: int,
    found: Seq<PlacementModel>,
    unreachable: ErrorKind,
)
    requires
        are_nodes(nodes),
        in_progress(nodes, found, index),
        directory_order_from(nodes, index, found, unreachable) is Ok,
    ensures
        ({
            let all = directory_order_from(nodes, index, found, unreachable)->Ok_0;
            &&& all.len() >= found.len()
            &&& all.take(found.len() as int) == found
            &&& are_ordered(nodes, all, all.len() as int)
        }),
    decreases count_directories(nodes, 0) + 1 - index,
{
    if index < found.len() {
        progress_is_kept(nodes, found, index);
        let more = subdirectories_from(nodes, found[index].path, index, 0, found);
        order_is_kept(nodes, index + 1, more, unreachable);
        let all = directory_order_from(nodes, index, found, unreachable)->Ok_0;
        assert(all.take(found.len() as int) =~= all.take(more.len() as int).take(
            found.len() as int,
        ));
    } else {
        assert(found.take(found.len() as int) =~= found);
        assert forall|m: int| 1 <= m < found.len() implies #[trigger] is_held(
            nodes,
            found,
            m,
            found.len() as int,
        ) by {
            assert(is_held(nodes, found, m, if index == 0 {
                1
            } else {
                index
            }));
        }
    }
}

/// The directories of a tree come in order: the root first, each after the one that
/// holds it, and no path twice.
pub proof fn directories_are_ordered(nodes: Seq<NodeModel>, unreachable: ErrorKind)
    requires
        are_nodes(nodes),
        directories_of(nodes, unreachable) is Ok,
    ensures
        ({
            let all = directories_of(nodes, unreachable)->Ok_0;
            are_ordered(nodes, all, all.len() as int)
        }),
{
    order_is_kept(nodes, 0, seq![unplaced(root_path(), seq![0u8], 0, 0)], unreachable);
}

} // verus!
