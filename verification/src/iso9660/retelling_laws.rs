//! What is told of an image, entry by entry: each is told of one that was described,
//! directory after directory.
use vstd::prelude::*;

use crate::iso9660::description::{EntryModel, IsoModel, SlackModel};
use crate::iso9660::directory::SpotModel;
use crate::iso9660::directory_laws::told_slack;
use crate::iso9660::layout::{primary_options, primary_spots};
use crate::iso9660::order_laws::is_held;
use crate::iso9660::path_table::{find_directory, PlacementModel};
use crate::iso9660::placing::{parent_is_shorter, PlacingModel};
use crate::iso9660::placing_laws::{are_sized, found_directory_is_there};
use crate::iso9660::selection_laws::{
    all_are_chosen, chosen, chosen_are_children, chosen_of_both, first_indexes, held,
    held_are_ordered, none_are_chosen, one_more_is_chosen,
};
use crate::iso9660::subheaders::{frame_entries_from, frame_entry, SubheaderModel};
use crate::iso9660::tree::{is_child, is_file, primary_nodes};
use crate::iso9660::tree_walk_laws::{
    directories_follow_order, is_reference, tree_entries_from, tree_tally_from, with_told_slack,
};
use crate::iso9660::validate::{entry_check, has_child, is_known};
use crate::iso9660::walk::entry_at;
use crate::iso9660::walk_laws::{
    child_entries_from, child_tally_from, is_tree, read_entry, tally_with, Tally,
};
use crate::raw_cd::Block;
use crate::text::{parent_of, root_path};

verus! {

/// `read`, and then the indexes of what lies in the directories from `index` on.
pub open spec fn origins_from(iso: IsoModel, state: PlacingModel, index: int, read: Seq<int>) -> Seq<int>
    decreases state.primary.placements.len() - index,
{
    let directories = state.primary.placements;
    if index < 0 || index >= directories.len() {
        read
    } else if is_reference(iso, directories[index]) {
        origins_from(iso, state, index + 1, read)
    } else {
        origins_from(
            iso,
            state,
            index + 1,
            read + held(primary_nodes(iso), directories[index].path),
        )
    }
}

/// For each entry that is told, the index of the one it is told of.
pub open spec fn told_origins(iso: IsoModel, state: PlacingModel) -> Seq<int> {
    origins_from(iso, state, 0, seq![0int])
}

/// Every directory of a tree has its place among the directories.
pub open spec fn all_are_listed(iso: IsoModel, directories: Seq<PlacementModel>) -> bool {
    forall|k: int|
        0 <= k < iso.entries.len() && (#[trigger] primary_nodes(iso)[k]).directory
            ==> find_directory(directories, iso.entries[k].path) < directories.len()
}

/// Where the sectors of all entries can be framed, every directory has its place.
pub proof fn framed_are_listed(
    iso: IsoModel,
    state: PlacingModel,
    marks: SubheaderModel,
    index: int,
)
    requires
        0 <= index,
        frame_entries_from(iso, state, marks, index) is Ok,
    ensures
        forall|k: int|
            index <= k < iso.entries.len() && (#[trigger] primary_nodes(iso)[k]).directory
                ==> find_directory(state.primary.placements, iso.entries[k].path)
                < state.primary.placements.len(),
    decreases iso.entries.len() - index,
{
    if index < iso.entries.len() {
        let next = frame_entry(iso, state, marks, iso.entries[index])->Ok_0;
        framed_are_listed(iso, state, next, index + 1);
    }
}

/// The entry of a directory that has its place.
pub proof fn listed_has_entry(iso: IsoModel, directories: Seq<PlacementModel>, index: int)
    requires
        is_tree(iso),
        are_sized(iso, directories),
        all_are_listed(iso, directories),
        0 <= index < iso.entries.len(),
        primary_nodes(iso)[index].directory,
    ensures
        ({
            let at = find_directory(directories, iso.entries[index].path);
            &&& 0 <= at < directories.len()
            &&& directories[at].path == iso.entries[index].path
            &&& directories[at].entry == index
        }),
{
    let nodes = primary_nodes(iso);
    let at = find_directory(directories, iso.entries[index].path);
    assert(nodes[index].directory);
    found_directory_is_there(directories, iso.entries[index].path, 0);
    directories_follow_order(iso, directories);
    let entry = directories[at].entry;
    if at > 0 {
        assert(is_held(nodes, directories, at, directories.len() as int));
    }
    assert(iso.entries[entry].path == iso.entries[index].path);
    if entry < index {
        assert(iso.entries[entry].path != iso.entries[index].path);
    } else if index < entry {
        assert(iso.entries[index].path != iso.entries[entry].path);
    }
}

/// Whatever is no root lies in a directory that has its place and is not only referred
/// to.
pub proof fn parent_is_listed(iso: IsoModel, directories: Seq<PlacementModel>, index: int)
    requires
        is_tree(iso),
        are_sized(iso, directories),
        all_are_listed(iso, directories),
        0 < index < iso.entries.len(),
    ensures
        ({
            let at = find_directory(directories, parent_of(iso.entries[index].path));
            &&& 0 <= at < directories.len()
            &&& directories[at].path == parent_of(iso.entries[index].path)
            &&& !is_reference(iso, directories[at])
            &&& is_child(primary_nodes(iso)[index], directories[at].path)
        }),
{
    let path = iso.entries[index].path;
    let parent = parent_of(path);
    assert(entry_check(iso, index) is Ok);
    assert(iso.entries[0].path != iso.entries[index].path);
    assert(is_known(iso.entries, parent) && !is_file(iso, parent));
    let k = choose|k: int| 0 <= k < iso.entries.len() && (#[trigger] iso.entries[k]).path == parent;
    assert(primary_nodes(iso)[k].directory);
    listed_has_entry(iso, directories, k);
    let at = find_directory(directories, parent);
    if is_reference(iso, directories[at]) {
        assert(entry_check(iso, k) is Ok);
        parent_is_shorter(path);
        if path == parent {
            assert(false);
        }
        assert(has_child(iso.entries, parent));
        assert(false);
    }
}

/// Indexes of what lies in the first directories: each once, those of one directory
/// in order.
pub open spec fn are_origins(
    iso: IsoModel,
    state: PlacingModel,
    index: int,
    origins: Seq<int>,
) -> bool {
    let nodes = primary_nodes(iso);
    let directories = state.primary.placements;
    &&& origins.len() > 0
    &&& origins[0] == 0
    &&& forall|e: int|
        1 <= e < origins.len() ==> 0 < #[trigger] origins[e] < nodes.len() && lies_in_first(
            iso,
            state,
            index,
            origins[e],
        )
    &&& forall|e: int, f: int|
        0 <= e < f < origins.len() ==> #[trigger] origins[e] != #[trigger] origins[f]
    &&& forall|j: int|
        0 <= j < index && j < directories.len() && !is_reference(iso, #[trigger] directories[j])
            ==> chosen(nodes, origins, directories[j].path) == held(nodes, directories[j].path)
}

/// A node lies in one of the first directories.
pub open spec fn lies_in_first(iso: IsoModel, state: PlacingModel, index: int, k: int) -> bool {
    exists|j: int|
        0 <= j < index && j < state.primary.placements.len() && !is_reference(
            iso,
            #[trigger] state.primary.placements[j],
        ) && is_child(primary_nodes(iso)[k], state.primary.placements[j].path)
}

/// One more directory adds what lies in it.
proof fn origins_grow(iso: IsoModel, state: PlacingModel, index: int, origins: Seq<int>)
    requires
        is_tree(iso),
        are_sized(iso, state.primary.placements),
        0 <= index < state.primary.placements.len(),
        are_origins(iso, state, index, origins),
    ensures
        is_reference(iso, state.primary.placements[index]) ==> are_origins(
            iso,
            state,
            index + 1,
            origins,
        ),
        !is_reference(iso, state.primary.placements[index]) ==> are_origins(
            iso,
            state,
            index + 1,
            origins + held(primary_nodes(iso), state.primary.placements[index].path),
        ),
{
    let nodes = primary_nodes(iso);
    let directories = state.primary.placements;
    directories_follow_order(iso, directories);
    let path = directories[index].path;
    let all = held(nodes, path);
    assert forall|k: int| #[trigger] lies_in_first(iso, state, index, k) implies lies_in_first(
        iso,
        state,
        index + 1,
        k,
    ) && !is_child(nodes[k], path) by {
        let j = choose|j: int|
            0 <= j < index && j < directories.len() && !is_reference(
                iso,
                #[trigger] directories[j],
            ) && is_child(nodes[k], directories[j].path);
        assert(directories[j].path != directories[index].path);
    }
    if !is_reference(iso, directories[index]) {
        let more = origins + all;
        held_are_ordered(nodes, path, nodes.len() as int);
        chosen_are_children(nodes, first_indexes(nodes.len() as int), path);
        assert(nodes[0].path == root_path());
        assert forall|e: int| 1 <= e < more.len() implies 0 < #[trigger] more[e] < nodes.len()
            && lies_in_first(iso, state, index + 1, more[e]) by {
            if e < origins.len() {
                assert(more[e] == origins[e]);
            } else {
                assert(more[e] == all[e - origins.len()]);
                assert(is_child(nodes[more[e]], directories[index].path));
            }
        }
        assert forall|e: int| 0 <= e < origins.len() implies !is_child(
            nodes[#[trigger] origins[e]],
            path,
        ) by {}
        assert forall|e: int, f: int| 0 <= e < f < more.len() implies #[trigger] more[e]
            != #[trigger] more[f] by {
            if f < origins.len() {
                assert(more[e] == origins[e] && more[f] == origins[f]);
            } else {
                assert(more[f] == all[f - origins.len()]);
                assert(is_child(nodes[all[f - origins.len()]], path));
                if e < origins.len() {
                    assert(more[e] == origins[e]);
                } else {
                    assert(more[e] == all[e - origins.len()]);
                }
            }
        }
        assert forall|j: int|
            0 <= j < index + 1 && j < directories.len() && !is_reference(
                iso,
                #[trigger] directories[j],
            ) implies chosen(nodes, more, directories[j].path) == held(
            nodes,
            directories[j].path,
        ) by {
            chosen_of_both(nodes, origins, all, directories[j].path);
            if j < index {
                assert(directories[j].path != path);
                none_are_chosen(nodes, all, directories[j].path);
                assert(held(nodes, directories[j].path) + Seq::<int>::empty() =~= held(
                    nodes,
                    directories[j].path,
                ));
            } else {
                none_are_chosen(nodes, origins, path);
                all_are_chosen(nodes, all, path);
                assert(Seq::<int>::empty() + all =~= all);
            }
        }
    }
}

proof fn origins_are_complete_from(
    iso: IsoModel,
    state: PlacingModel,
    index: int,
    origins: Seq<int>,
)
    requires
        is_tree(iso),
        are_sized(iso, state.primary.placements),
        0 <= index <= state.primary.placements.len(),
        are_origins(iso, state, index, origins),
    ensures
        are_origins(
            iso,
            state,
            state.primary.placements.len() as int,
            origins_from(iso, state, index, origins),
        ),
    decreases state.primary.placements.len() - index,
{
    let directories = state.primary.placements;
    if index < directories.len() {
        origins_grow(iso, state, index, origins);
        if is_reference(iso, directories[index]) {
            origins_are_complete_from(iso, state, index + 1, origins);
        } else {
            origins_are_complete_from(
                iso,
                state,
                index + 1,
                origins + held(primary_nodes(iso), directories[index].path),
            );
        }
    }
}

/// Every entry is told once, and what lies in one directory in order.
pub proof fn origins_are_complete(iso: IsoModel, state: PlacingModel)
    requires
        is_tree(iso),
        are_sized(iso, state.primary.placements),
        all_are_listed(iso, state.primary.placements),
    ensures
        ({
            let nodes = primary_nodes(iso);
            let origins = told_origins(iso, state);
            &&& are_origins(iso, state, state.primary.placements.len() as int, origins)
            &&& forall|k: int| 0 <= k < nodes.len() ==> #[trigger] origins.contains(k)
            &&& forall|path: Seq<char>| #[trigger]
                chosen(nodes, origins, path) == held(nodes, path)
        }),
{
    let nodes = primary_nodes(iso);
    let directories = state.primary.placements;
    let origins = told_origins(iso, state);
    origins_are_complete_from(iso, state, 0, seq![0int]);
    assert(origins[0] == 0);
    assert forall|k: int| 0 <= k < nodes.len() implies #[trigger] origins.contains(k) by {
        if k > 0 {
            parent_is_listed(iso, directories, k);
            let at = find_directory(directories, parent_of(iso.entries[k].path));
            let path = directories[at].path;
            assert(chosen(nodes, origins, path) == held(nodes, path));
            chosen_are_children(nodes, first_indexes(nodes.len() as int), path);
            assert(first_indexes(nodes.len() as int)[k] == k);
            assert(first_indexes(nodes.len() as int).contains(k));
            assert(held(nodes, path).contains(k));
            chosen_are_children(nodes, origins, path);
            let i = choose|i: int| 0 <= i < held(nodes, path).len() && held(nodes, path)[i] == k;
            assert(origins.contains(chosen(nodes, origins, path)[i]));
        }
    }
    assert forall|path: Seq<char>| #[trigger] chosen(nodes, origins, path) == held(
        nodes,
        path,
    ) by {
        if exists|k: int| 0 < k < nodes.len() && is_child(#[trigger] nodes[k], path) {
            let k = choose|k: int| 0 < k < nodes.len() && is_child(#[trigger] nodes[k], path);
            parent_is_listed(iso, directories, k);
            let at = find_directory(directories, parent_of(iso.entries[k].path));
            assert(directories[at].path == path);
        } else {
            assert(nodes[0].path == root_path());
            assert forall|e: int| 0 <= e < origins.len() implies !is_child(
                nodes[#[trigger] origins[e]],
                path,
            ) by {
                if e > 0 {
                    assert(0 < origins[e] < nodes.len());
                }
            }
            none_are_chosen(nodes, origins, path);
            let all = first_indexes(nodes.len() as int);
            assert forall|i: int| 0 <= i < all.len() implies !is_child(
                nodes[#[trigger] all[i]],
                path,
            ) by {}
            none_are_chosen(nodes, all, path);
        }
    }
}

/// What is read of entries.
pub open spec fn entries_of(
    iso: IsoModel,
    spots: Seq<SpotModel>,
    trailing: bool,
    blocks: Seq<Block>,
    indexes: Seq<int>,
) -> Seq<EntryModel> {
    Seq::new(
        indexes.len(),
        |i: int| read_entry(iso, spots, trailing, blocks, indexes[i]),
    )
}

proof fn entries_are_of_held(
    iso: IsoModel,
    spots: Seq<SpotModel>,
    trailing: bool,
    blocks: Seq<Block>,
    path: Seq<char>,
    index: int,
    first: Seq<EntryModel>,
)
    requires
        0 <= index <= iso.entries.len(),
    ensures
        child_entries_from(
            iso,
            spots,
            trailing,
            blocks,
            path,
            index,
            first + entries_of(
                iso,
                spots,
                trailing,
                blocks,
                chosen(primary_nodes(iso), first_indexes(index), path),
            ),
        ) == first + entries_of(iso, spots, trailing, blocks, held(primary_nodes(iso), path)),
    decreases iso.entries.len() - index,
{
    let nodes = primary_nodes(iso);
    if index < nodes.len() {
        entries_are_of_held(iso, spots, trailing, blocks, path, index + 1, first);
        one_more_is_chosen(nodes, path, index);
        let before = chosen(nodes, first_indexes(index), path);
        if is_child(nodes[index], path) {
            assert((first + entries_of(iso, spots, trailing, blocks, before)).push(
                read_entry(iso, spots, trailing, blocks, index),
            ) =~= first + entries_of(iso, spots, trailing, blocks, before.push(index)));
        }
    }
}

/// What stands behind the records of a directory is told once it was read.
pub open spec fn slack_so_far(iso: IsoModel, directories: Seq<PlacementModel>, index: int, k: int) -> Option<
    SlackModel,
> {
    if exists|j: int|
        0 <= j < index && j < directories.len() && (#[trigger] directories[j]).entry == k {
        told_slack(iso.entries[k].directory_slack)
    } else {
        None
    }
}

/// Entries are told of those with the given indexes, with what the first directories
/// tell of them.
pub open spec fn are_told_of(
    iso: IsoModel,
    state: PlacingModel,
    blocks: Seq<Block>,
    index: int,
    root: EntryModel,
    entries: Seq<EntryModel>,
    origins: Seq<int>,
) -> bool {
    let directories = state.primary.placements;
    &&& entries.len() == origins.len()
    &&& entries.len() > 0
    &&& entries[0] == (EntryModel {
        directory_slack: slack_so_far(iso, directories, index, 0),
        ..root
    })
    &&& forall|e: int|
        1 <= e < entries.len() ==> (#[trigger] entries[e]) == (EntryModel {
            directory_slack: slack_so_far(iso, directories, index, origins[e]),
            ..read_entry(
                iso,
                primary_spots(iso, state, primary_nodes(iso)),
                primary_options(iso).trailing_system_use_padding,
                blocks,
                origins[e],
            )
        })
}

/// An entry whose path no earlier one has is found.
proof fn entry_is_found(entries: Seq<EntryModel>, position: int, index: int)
    requires
        0 <= index <= position < entries.len(),
        forall|i: int|
            index <= i < position ==> (#[trigger] entries[i]).path != entries[position].path,
    ensures
        entry_at(entries, entries[position].path, index) == position,
    decreases position - index,
{
    if index < position {
        assert(entries[index].path != entries[position].path);
        entry_is_found(entries, position, index + 1);
    }
}

/// What one more directory tells.
#[verifier::rlimit(30)]
proof fn telling_goes_on(
    iso: IsoModel,
    state: PlacingModel,
    blocks: Seq<Block>,
    index: int,
    root: EntryModel,
    entries: Seq<EntryModel>,
    origins: Seq<int>,
)
    requires
        is_tree(iso),
        are_sized(iso, state.primary.placements),
        0 <= index < state.primary.placements.len(),
        are_origins(iso, state, index, origins),
        root.path == root_path(),
        are_told_of(iso, state, blocks, index, root, entries, origins),
        is_reference(iso, state.primary.placements[index]) || origins.contains(
            state.primary.placements[index].entry,
        ),
        is_reference(iso, state.primary.placements[index]) ==> told_slack(
            iso.entries[state.primary.placements[index].entry].directory_slack,
        ) is None,
    ensures
        is_reference(iso, state.primary.placements[index]) ==> are_told_of(
            iso,
            state,
            blocks,
            index + 1,
            root,
            entries,
            origins,
        ),
        !is_reference(iso, state.primary.placements[index]) ==> are_told_of(
            iso,
            state,
            blocks,
            index + 1,
            root,
            child_entries_from(
                iso,
                primary_spots(iso, state, primary_nodes(iso)),
                primary_options(iso).trailing_system_use_padding,
                blocks,
                state.primary.placements[index].path,
                0,
                with_told_slack(iso, state.primary.placements[index], entries),
            ),
            origins + held(primary_nodes(iso), state.primary.placements[index].path),
        ),
{
    let nodes = primary_nodes(iso);
    let spots = primary_spots(iso, state, nodes);
    let trailing = primary_options(iso).trailing_system_use_padding;
    let directories = state.primary.placements;
    let directory = directories[index];
    directories_follow_order(iso, directories);
    if index > 0 {
        assert(is_held(nodes, directories, index, directories.len() as int));
    }
    assert(iso.entries[directory.entry].path == directory.path);
    assert forall|k: int| k != directory.entry implies #[trigger] slack_so_far(
        iso,
        directories,
        index + 1,
        k,
    ) == slack_so_far(iso, directories, index, k) by {
        if exists|j: int|
            0 <= j < index + 1 && j < directories.len() && (#[trigger] directories[j]).entry
                == k {
            let j = choose|j: int|
                0 <= j < index + 1 && j < directories.len() && (
                #[trigger] directories[j]).entry == k;
            assert(j < index);
        }
    }
    assert(slack_so_far(iso, directories, index + 1, directory.entry) == told_slack(
        iso.entries[directory.entry].directory_slack,
    )) by {
        assert(directories[index].entry == directory.entry);
    }
    if is_reference(iso, directory) {
        assert(slack_so_far(iso, directories, index, directory.entry) is None);
        assert forall|e: int| 1 <= e < entries.len() implies slack_so_far(
            iso,
            directories,
            index + 1,
            #[trigger] origins[e],
        ) == slack_so_far(iso, directories, index, origins[e]) by {}
        assert(slack_so_far(iso, directories, index + 1, 0) == slack_so_far(
            iso,
            directories,
            index,
            0,
        ));
        assert forall|e: int| 1 <= e < entries.len() implies (#[trigger] entries[e]) == (
        EntryModel {
            directory_slack: slack_so_far(iso, directories, index + 1, origins[e]),
            ..read_entry(iso, spots, trailing, blocks, origins[e])
        }) by {
            assert(slack_so_far(iso, directories, index + 1, origins[e]) == slack_so_far(
                iso,
                directories,
                index,
                origins[e],
            ));
        }
    } else {
        let e0 = choose|e: int| 0 <= e < origins.len() && origins[e] == directory.entry;
        assert forall|e: int| 0 <= e < entries.len() implies (#[trigger] entries[e]).path
            == iso.entries[origins[e]].path && 0 <= origins[e] < iso.entries.len() by {
            if e > 0 {
                assert(0 < origins[e]);
            }
        }
        assert forall|e: int| 0 <= e < e0 implies (#[trigger] entries[e]).path
            != entries[e0].path by {
            assert(origins[e] != origins[e0]);
            if origins[e] < origins[e0] {
                assert(iso.entries[origins[e]].path != iso.entries[origins[e0]].path);
            } else {
                assert(iso.entries[origins[e0]].path != iso.entries[origins[e]].path);
            }
        }
        entry_is_found(entries, e0, 0);
        assert(entries[e0].path == directory.path);
        let told = with_told_slack(iso, directory, entries);
        assert(told == entries.update(
            e0,
            EntryModel {
                directory_slack: told_slack(iso.entries[directory.entry].directory_slack),
                ..entries[e0]
            },
        ));
        entries_are_of_held(iso, spots, trailing, blocks, directory.path, 0, told);
        let none = entries_of(
            iso,
            spots,
            trailing,
            blocks,
            chosen(nodes, first_indexes(0), directory.path),
        );
        assert(told + none =~= told);
        let all = held(nodes, directory.path);
        let added = entries_of(iso, spots, trailing, blocks, all);
        let more = told + added;
        let more_origins = origins + all;
        chosen_are_children(nodes, first_indexes(nodes.len() as int), directory.path);
        held_are_ordered(nodes, directory.path, nodes.len() as int);
        assert forall|e: int| 1 <= e < more.len() implies (#[trigger] more[e]) == (EntryModel {
            directory_slack: slack_so_far(iso, directories, index + 1, more_origins[e]),
            ..read_entry(iso, spots, trailing, blocks, more_origins[e])
        }) by {
            if e < told.len() {
                assert(more[e] == told[e]);
                assert(more_origins[e] == origins[e]);
                assert(entries[e] == (EntryModel {
                    directory_slack: slack_so_far(iso, directories, index, origins[e]),
                    ..read_entry(iso, spots, trailing, blocks, origins[e])
                }));
                if e != e0 {
                    if e < e0 {
                        assert(origins[e] != origins[e0]);
                    } else {
                        assert(origins[e0] != origins[e]);
                    }
                }
            } else {
                let i = e - told.len();
                assert(more[e] == added[i]);
                assert(more_origins[e] == all[i]);
                let k = all[i];
                assert(is_child(nodes[k], directory.path));
                if exists|j: int|
                    0 <= j < index + 1 && j < directories.len() && (
                    #[trigger] directories[j]).entry == k {
                    let j = choose|j: int|
                        0 <= j < index + 1 && j < directories.len() && (
                        #[trigger] directories[j]).entry == k;
                    assert(nodes[0].path == root_path());
                    assert(j > 0);
                    assert(is_held(nodes, directories, j, directories.len() as int));
                    let parent = directories[j].parent;
                    assert(parent < j);
                    assert(directories[parent].path == directory.path);
                    if parent < index {
                        assert(directories[parent].path != directories[index].path);
                    }
                    assert(false);
                }
            }
        }
    }
}

proof fn tree_is_told_from(
    iso: IsoModel,
    state: PlacingModel,
    blocks: Seq<Block>,
    index: int,
    root: EntryModel,
    entries: Seq<EntryModel>,
    origins: Seq<int>,
)
    requires
        is_tree(iso),
        are_sized(iso, state.primary.placements),
        0 <= index <= state.primary.placements.len(),
        are_origins(iso, state, index, origins),
        root.path == root_path(),
        are_told_of(iso, state, blocks, index, root, entries, origins),
    ensures
        are_told_of(
            iso,
            state,
            blocks,
            state.primary.placements.len() as int,
            root,
            tree_entries_from(iso, state, blocks, index, entries),
            origins_from(iso, state, index, origins),
        ),
    decreases state.primary.placements.len() - index,
{
    let nodes = primary_nodes(iso);
    let directories = state.primary.placements;
    if index < directories.len() {
        let directory = directories[index];
        origins_grow(iso, state, index, origins);
        directories_follow_order(iso, directories);
        if index == 0 {
            assert(origins[0] == directory.entry);
        } else {
            assert(is_held(nodes, directories, index, directories.len() as int));
            let parent = directories[directory.parent];
            if directory.parent > 0 {
                assert(is_held(nodes, directories, directory.parent, directories.len() as int));
            }
            assert(parent.path == parent_of(directory.path));
            if is_reference(iso, parent) {
                assert(iso.entries[directory.entry].path == directory.path);
                assert(entry_check(iso, parent.entry) is Ok);
                assert(iso.entries[parent.entry].path == parent.path);
                assert(directories[directory.parent].path != directories[index].path);
                assert(has_child(iso.entries, parent.path));
                assert(false);
            }
            assert(chosen(nodes, origins, parent.path) == held(nodes, parent.path));
            assert(is_child(nodes[directory.entry], parent.path));
            chosen_are_children(nodes, first_indexes(nodes.len() as int), parent.path);
            assert(first_indexes(nodes.len() as int)[directory.entry] == directory.entry);
            assert(first_indexes(nodes.len() as int).contains(directory.entry));
            assert(held(nodes, parent.path).contains(directory.entry));
            let i = choose|i: int|
                0 <= i < held(nodes, parent.path).len() && held(nodes, parent.path)[i]
                    == directory.entry;
            chosen_are_children(nodes, origins, parent.path);
            assert(origins.contains(chosen(nodes, origins, parent.path)[i]));
        }
        if is_reference(iso, directory) {
            assert(entry_check(iso, directory.entry) is Ok);
        }
        telling_goes_on(iso, state, blocks, index, root, entries, origins);
        if is_reference(iso, directory) {
            tree_is_told_from(iso, state, blocks, index + 1, root, entries, origins);
        } else {
            let more = child_entries_from(
                iso,
                primary_spots(iso, state, nodes),
                primary_options(iso).trailing_system_use_padding,
                blocks,
                directory.path,
                0,
                with_told_slack(iso, directory, entries),
            );
            tree_is_told_from(
                iso,
                state,
                blocks,
                index + 1,
                root,
                more,
                origins + held(nodes, directory.path),
            );
        }
    }
}

/// What is told of an entry: what is read of it, and what stands behind the records of
/// a directory.
pub open spec fn told_entry(
    iso: IsoModel,
    state: PlacingModel,
    blocks: Seq<Block>,
    index: int,
) -> EntryModel {
    EntryModel {
        directory_slack: told_slack(iso.entries[index].directory_slack),
        ..read_entry(
            iso,
            primary_spots(iso, state, primary_nodes(iso)),
            primary_options(iso).trailing_system_use_padding,
            blocks,
            index,
        )
    }
}

/// Entry by entry, the tree is told of those that were described.
pub proof fn tree_is_told(
    iso: IsoModel,
    state: PlacingModel,
    blocks: Seq<Block>,
    root: EntryModel,
)
    requires
        is_tree(iso),
        are_sized(iso, state.primary.placements),
        all_are_listed(iso, state.primary.placements),
        root.path == root_path(),
        root.directory_slack is None,
    ensures
        ({
            let entries = tree_entries_from(iso, state, blocks, 0, seq![root]);
            let origins = told_origins(iso, state);
            &&& entries.len() == origins.len()
            &&& entries[0] == (EntryModel {
                directory_slack: told_slack(iso.entries[0].directory_slack),
                ..root
            })
            &&& forall|e: int|
                1 <= e < entries.len() ==> #[trigger] entries[e] == told_entry(
                    iso,
                    state,
                    blocks,
                    origins[e],
                )
        }),
{
    let nodes = primary_nodes(iso);
    let directories = state.primary.placements;
    let origins = told_origins(iso, state);
    let entries = tree_entries_from(iso, state, blocks, 0, seq![root]);
    assert(slack_so_far(iso, directories, 0, 0) is None);
    tree_is_told_from(iso, state, blocks, 0, root, seq![root], seq![0int]);
    origins_are_complete(iso, state);
    directories_follow_order(iso, directories);
    assert(directories[0].entry == 0);
    assert forall|e: int| 1 <= e < entries.len() implies #[trigger] entries[e] == told_entry(
        iso,
        state,
        blocks,
        origins[e],
    ) by {
        let k = origins[e];
        assert(0 < k < nodes.len());
        if nodes[k].directory {
            listed_has_entry(iso, directories, k);
            let at = find_directory(directories, iso.entries[k].path);
            assert(directories[at].entry == k);
        } else {
            assert(entry_check(iso, k) is Ok);
            assert(iso.entries[k].directory_slack is None);
            assert(slack_so_far(iso, directories, directories.len() as int, k) is None);
        }
    }
}

/// What is told besides entries after those with the given indexes.
pub open spec fn tally_over(
    iso: IsoModel,
    spots: Seq<SpotModel>,
    trailing: bool,
    indexes: Seq<int>,
    tally: Tally,
) -> Tally
    decreases indexes.len(),
{
    if indexes.len() == 0 {
        tally
    } else {
        tally_with(
            iso,
            spots,
            trailing,
            indexes.last(),
            tally_over(iso, spots, trailing, indexes.drop_last(), tally),
        )
    }
}

proof fn tally_over_both(
    iso: IsoModel,
    spots: Seq<SpotModel>,
    trailing: bool,
    left: Seq<int>,
    right: Seq<int>,
    tally: Tally,
)
    ensures
        tally_over(iso, spots, trailing, left + right, tally) == tally_over(
            iso,
            spots,
            trailing,
            right,
            tally_over(iso, spots, trailing, left, tally),
        ),
    decreases right.len(),
{
    let both = left + right;
    if right.len() == 0 {
        assert(both =~= left);
    } else {
        assert(both.drop_last() =~= left + right.drop_last());
        assert(both.last() == right.last());
        tally_over_both(iso, spots, trailing, left, right.drop_last(), tally);
    }
}

proof fn tally_is_of_held(
    iso: IsoModel,
    spots: Seq<SpotModel>,
    trailing: bool,
    path: Seq<char>,
    index: int,
    tally: Tally,
)
    requires
        0 <= index <= iso.entries.len(),
    ensures
        child_tally_from(
            iso,
            spots,
            trailing,
            path,
            index,
            tally_over(
                iso,
                spots,
                trailing,
                chosen(primary_nodes(iso), first_indexes(index), path),
                tally,
            ),
        ) == tally_over(iso, spots, trailing, held(primary_nodes(iso), path), tally),
    decreases iso.entries.len() - index,
{
    let nodes = primary_nodes(iso);
    if index < nodes.len() {
        tally_is_of_held(iso, spots, trailing, path, index + 1, tally);
        one_more_is_chosen(nodes, path, index);
        let before = chosen(nodes, first_indexes(index), path);
        if is_child(nodes[index], path) {
            assert(before.push(index).drop_last() =~= before);
        }
    }
}

/// What is told besides entries is told of each entry after the root.
pub proof fn tally_is_told(
    iso: IsoModel,
    state: PlacingModel,
    index: int,
    origins: Seq<int>,
    tally: Tally,
)
    requires
        0 <= index,
        origins.len() > 0,
    ensures
        ({
            let spots = primary_spots(iso, state, primary_nodes(iso));
            let trailing = primary_options(iso).trailing_system_use_padding;
            let all = origins_from(iso, state, index, origins);
            &&& all.len() > 0
            &&& tree_tally_from(
                iso,
                state,
                index,
                tally_over(iso, spots, trailing, origins.skip(1), tally),
            ) == tally_over(iso, spots, trailing, all.skip(1), tally)
        }),
    decreases state.primary.placements.len() - index,
{
    let nodes = primary_nodes(iso);
    let spots = primary_spots(iso, state, nodes);
    let trailing = primary_options(iso).trailing_system_use_padding;
    let directories = state.primary.placements;
    if index < directories.len() {
        if is_reference(iso, directories[index]) {
            tally_is_told(iso, state, index + 1, origins, tally);
        } else {
            let path = directories[index].path;
            let so_far = tally_over(iso, spots, trailing, origins.skip(1), tally);
            let added = held(nodes, path);
            tally_is_of_held(iso, spots, trailing, path, 0, so_far);
            assert(chosen(nodes, first_indexes(0), path) =~= Seq::<int>::empty());
            tally_over_both(iso, spots, trailing, origins.skip(1), added, tally);
            assert((origins + added).skip(1) =~= origins.skip(1) + added);
            tally_is_told(iso, state, index + 1, origins + added, tally);
        }
    }
}

} // verus!
