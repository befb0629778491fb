//! A walk of an image finds every directory of the tree that was laid out, and all
//! that lies in them.
use vstd::prelude::*;
use vstd::set_lib::{lemma_int_range, lemma_len_subset, set_int_range};

use crate::error::{ErrorKind, Failure};
use crate::iso9660::description::{EntryModel, IsoModel};
use crate::iso9660::directory::{
    child_record, child_records_from, directory_records, node_record, parent_record, SpotModel,
};
use crate::iso9660::directory_laws::{
    child_models_from, directory_models, node_model, parent_model, shows, told_slack,
};
use crate::iso9660::layout::{primary_options, primary_spot, primary_spots, sized_directory};
use crate::iso9660::layout_laws::has_plain_packing;
use crate::iso9660::order_laws::{
    are_nodes, are_ordered, directories_are_ordered, in_progress, is_held, order_is_kept,
    progress_is_kept,
};
use crate::iso9660::path_table::{find_directory, find_directory_from, PlacementModel};
use crate::iso9660::placing::{parent_is_shorter, PlacingModel};
use crate::iso9660::placing_laws::{
    are_sized, found_directory_is_there, primary_order, same_directory, subdirectories_follow,
};
use crate::iso9660::read::{directory_contents, merged};
use crate::iso9660::record::parsed_xa;
use crate::iso9660::time::{recording_time_bytes, recording_time_text};
use crate::iso9660::tree::{
    directory_order_from, is_child, is_subdirectory, primary_nodes, subdirectories_from, unplaced,
};
use crate::iso9660::validate::{entry_check, has_child};
use crate::iso9660::walk::{
    addressed, entry_at, listed_record_check, listed_record_checks, parent_time_with, visits_again,
    walked_from, with_directory, FoundModel, WalkModel,
};
use crate::iso9660::walk_laws::{
    child_directories_from, child_entries_from, child_tally_from, children_are_listed,
    children_are_read, children_are_written, dot_is_listed, found_at, is_tree, is_written,
    models_stay_first, read_entry, tally_of, Tally,
};
use crate::manifest::DirectoryParentRecordingTime;
use crate::model::{first_failure, first_failure_ok};
use crate::raw_cd::Block;
use crate::text::{last_index_of_is_last, root_path};

verus! {

/// The nodes of a tree are nodes in the sense of its order.
pub proof fn tree_has_nodes(iso: IsoModel)
    requires
        is_tree(iso),
    ensures
        are_nodes(primary_nodes(iso)),
{
    let nodes = primary_nodes(iso);
    assert forall|i: int, j: int| 0 <= i < j < nodes.len() implies (#[trigger] nodes[i]).path != (
    #[trigger] nodes[j]).path by {
        assert(iso.entries[i].path != iso.entries[j].path);
    }
}

/// What is found of a directory that has its place.
pub open spec fn found_of(directory: PlacementModel) -> FoundModel {
    FoundModel { path: directory.path, extent: directory.extent, length: directory.length }
}

/// What is found of the first `count` directories.
pub open spec fn all_found(directories: Seq<PlacementModel>, count: int) -> Seq<FoundModel> {
    Seq::new(count as nat, |i: int| found_of(directories[i]))
}

/// The directory is only referred to.
pub open spec fn is_reference(iso: IsoModel, directory: PlacementModel) -> bool {
    iso.entries[directory.entry].directory_reference is Some
}

/// The records of a directory can be made, and are read from the blocks of an
/// image, with what stands behind them.
#[verifier::opaque]
pub open spec fn is_readable(iso: IsoModel, state: PlacingModel, blocks: Seq<Block>, index: int) -> bool {
    let nodes = primary_nodes(iso);
    let spots = primary_spots(iso, state, nodes);
    let directories = state.primary.placements;
    let directory = directories[index];
    let parent = directories[directory.parent];
    let options = primary_options(iso);
    let contents = directory_contents(blocks, directory.extent, directory.length);
    &&& directory_records(nodes, spots, directory, parent, options) is Ok
    &&& contents is Ok
    &&& contents->Ok_0.records == directory_models(nodes, spots, directory, parent, options)
    &&& contents->Ok_0.slack == told_slack(iso.entries[directory.entry].directory_slack)
    &&& shows(contents->Ok_0.observation, iso.directory_record_packing)
    &&& !contents->Ok_0.observation.skipped_exact_fit ==> has_plain_packing(iso, state, index)
    &&& directory.length > 0
}

/// An image whose every directory is read back: no two that are not only referred
/// to lie at one extent.
pub open spec fn is_walkable(iso: IsoModel, state: PlacingModel, blocks: Seq<Block>) -> bool {
    let directories = state.primary.placements;
    &&& is_tree(iso)
    &&& are_sized(iso, directories)
    &&& forall|j: int|
        0 <= j < directories.len() && !is_reference(iso, #[trigger] directories[j]) ==> is_readable(
            iso,
            state,
            blocks,
            j,
        ) && directories[j].extent < blocks.len()
    &&& forall|i: int, j: int|
        0 <= i < j < directories.len() && !is_reference(iso, #[trigger] directories[i])
            && !is_reference(iso, #[trigger] directories[j]) ==> directories[i].extent
            != directories[j].extent
}

/// The records of what lies in a directory whose records can be made can be.
proof fn made_children_are_written(
    iso: IsoModel,
    spots: Seq<SpotModel>,
    path: Seq<char>,
    trailing: bool,
    index: int,
    made: Seq<Seq<u8>>,
)
    requires
        0 <= index,
        child_records_from(primary_nodes(iso), spots, path, trailing, index, made) is Ok,
    ensures
        forall|k: int|
            index <= k < iso.entries.len() && is_child(#[trigger] primary_nodes(iso)[k], path)
                ==> is_written(iso, spots, k),
    decreases iso.entries.len() - index,
{
    let nodes = primary_nodes(iso);
    if index < nodes.len() {
        if is_child(nodes[index], path) {
            let record = child_record(nodes[index], spots[index], trailing)->Ok_0;
            assert(is_written(iso, spots, index));
            made_children_are_written(iso, spots, path, trailing, index + 1, made.push(record));
        } else {
            made_children_are_written(iso, spots, path, trailing, index + 1, made);
        }
    }
}

/// The directories of a tree have the paths and the entries of its order.
pub proof fn directories_follow_order(iso: IsoModel, directories: Seq<PlacementModel>)
    requires
        is_tree(iso),
        are_sized(iso, directories),
    ensures
        are_ordered(primary_nodes(iso), directories, directories.len() as int),
        forall|i: int|
            0 <= i < directories.len() ==> (#[trigger] directories[i]).path == primary_order(
                iso,
            )[i].path && directories[i].entry == primary_order(iso)[i].entry
                && directories[i].parent == primary_order(iso)[i].parent,
        forall|i: int|
            0 <= i < directories.len() ==> find_directory(
                directories,
                (#[trigger] directories[i]).path,
            ) == i,
{
    tree_has_nodes(iso);
    let nodes = primary_nodes(iso);
    let ordered = primary_order(iso);
    directories_are_ordered(nodes, ErrorKind::UnreachableDirectory);
    assert forall|i: int| 0 <= i < directories.len() implies (#[trigger] directories[i]).path
        == ordered[i].path && directories[i].entry == ordered[i].entry && directories[i].parent
        == ordered[i].parent by {
        let sized = sized_directory(iso, nodes, ordered[i])->Ok_0;
        assert(same_directory(directories[i], sized));
    }
    assert forall|m: int| 1 <= m < directories.len() implies #[trigger] is_held(
        nodes,
        directories,
        m,
        directories.len() as int,
    ) by {
        assert(is_held(nodes, ordered, m, ordered.len() as int));
        assert(directories[m].path == ordered[m].path);
        assert(directories[ordered[m].parent].path == ordered[ordered[m].parent].path);
    }
    assert forall|i: int, j: int| 0 <= i < j < directories.len() implies (
    #[trigger] directories[i]).path != (#[trigger] directories[j]).path by {
        assert(ordered[i].path != ordered[j].path);
    }
    assert(directories[0].path == ordered[0].path);
    assert forall|i: int| 0 <= i < directories.len() implies find_directory(
        directories,
        (#[trigger] directories[i]).path,
    ) == i by {
        found_directory_is_there(directories, directories[i].path, 0);
        found_is_first(directories, i, 0);
    }
}

/// A directory is found no later than where it stands.
pub proof fn found_is_first(directories: Seq<PlacementModel>, position: int, index: int)
    requires
        0 <= index <= position < directories.len(),
        forall|i: int, j: int|
            0 <= i < j < directories.len() ==> (#[trigger] directories[i]).path != (
            #[trigger] directories[j]).path,
    ensures
        find_directory_from(directories, directories[position].path, index) == position,
    decreases position - index,
{
    if index < position {
        assert(directories[index].path != directories[position].path);
        found_is_first(directories, position, index + 1);
    }
}

/// The directories that are found in one more directory are those that come next in
/// the order.
proof fn next_directories_are_found(
    iso: IsoModel,
    state: PlacingModel,
    path: Seq<char>,
    parent: int,
    index: int,
    found: Seq<PlacementModel>,
    read: Seq<FoundModel>,
)
    requires
        is_tree(iso),
        are_sized(iso, state.primary.placements),
        0 <= index,
        read == all_found(state.primary.placements, found.len() as int),
        ({
            let all = subdirectories_from(primary_nodes(iso), path, parent, index, found);
            &&& all.len() <= state.primary.placements.len()
            &&& all == primary_order(iso).take(all.len() as int)
        }),
        found.len() <= subdirectories_from(
            primary_nodes(iso),
            path,
            parent,
            index,
            found,
        ).len(),
    ensures
        ({
            let nodes = primary_nodes(iso);
            let all = subdirectories_from(nodes, path, parent, index, found);
            child_directories_from(
                iso,
                primary_spots(iso, state, nodes),
                primary_options(iso).trailing_system_use_padding,
                path,
                index,
                read,
            ) == all_found(state.primary.placements, all.len() as int)
        }),
    decreases iso.entries.len() - index,
{
    let nodes = primary_nodes(iso);
    let spots = primary_spots(iso, state, nodes);
    let trailing = primary_options(iso).trailing_system_use_padding;
    let directories = state.primary.placements;
    if index < nodes.len() {
        if is_subdirectory(nodes[index], path) {
            let more = found.push(
                unplaced(nodes[index].path, nodes[index].identifier, parent, index),
            );
            let all = subdirectories_from(nodes, path, parent, index, found);
            subdirectories_follow(
                nodes,
                path,
                parent,
                index + 1,
                more,
            );
            let n = found.len() as int;
            assert(all.take(more.len() as int)[n] == more[n]);
            assert(all[n] == primary_order(iso).take(all.len() as int)[n]);
            directories_follow_order(iso, directories);
            assert(directories[n].path == primary_order(iso)[n].path);
            assert(find_directory(directories, directories[n].path) == n);
            assert(spots[index] == primary_spot(iso, state, nodes, index));
            let next = found_at(iso, spots, trailing, index);
            assert(next == found_of(directories[n]));
            assert(read.push(next) =~= all_found(directories, n + 1));
            next_directories_are_found(
                iso,
                state,
                path,
                parent,
                index + 1,
                more,
                read.push(next),
            );
        } else {
            next_directories_are_found(iso, state, path, parent, index + 1, found, read);
        }
    }
}

/// The time of an entry, as it is read.
pub open spec fn read_time(iso: IsoModel, index: int) -> Seq<char> {
    recording_time_text(recording_time_bytes(iso.entries[index].recording_time)->Ok_0)
}

/// What was read is an entry of the description, by its path and its time.
pub open spec fn is_of(iso: IsoModel, entry: EntryModel, index: int) -> bool {
    &&& 0 <= index < iso.entries.len()
    &&& entry.path == iso.entries[index].path
    &&& entry.recording_time == read_time(iso, index)
}

/// What was read is some entry of the description.
pub open spec fn is_known(iso: IsoModel, entry: EntryModel) -> bool {
    exists|i: int| is_of(iso, entry, i)
}

/// Everything that was read is an entry of the description.
pub open spec fn are_known(iso: IsoModel, entries: Seq<EntryModel>) -> bool {
    forall|e: int| 0 <= e < entries.len() ==> is_known(iso, #[trigger] entries[e])
}

/// An entry with the path was read.
pub open spec fn is_listed(entries: Seq<EntryModel>, path: Seq<char>) -> bool {
    exists|e: int| 0 <= e < entries.len() && (#[trigger] entries[e]).path == path
}

/// An entry that was read is found.
proof fn listed_is_found(entries: Seq<EntryModel>, path: Seq<char>, position: int, index: int)
    requires
        0 <= index <= position < entries.len(),
        entries[position].path == path,
    ensures
        index <= entry_at(entries, path, index) < entries.len(),
        entries[entry_at(entries, path, index)].path == path,
    decreases position - index,
{
    if entries[index].path != path {
        listed_is_found(entries, path, position, index + 1);
    }
}

/// The entry of a path that was read has the time of the entry with that path.
proof fn listed_has_its_time(iso: IsoModel, entries: Seq<EntryModel>, index: int)
    requires
        is_tree(iso),
        are_known(iso, entries),
        0 <= index < iso.entries.len(),
        is_listed(entries, iso.entries[index].path),
    ensures
        ({
            let at = entry_at(entries, iso.entries[index].path, 0);
            &&& 0 <= at < entries.len()
            &&& is_of(iso, entries[at], index)
        }),
{
    let path = iso.entries[index].path;
    let e = choose|e: int| 0 <= e < entries.len() && (#[trigger] entries[e]).path == path;
    listed_is_found(entries, path, e, 0);
    let at = entry_at(entries, path, 0);
    assert(is_known(iso, entries[at]));
    let i = choose|i: int| is_of(iso, entries[at], i);
    if i < index {
        assert(iso.entries[i].path != iso.entries[index].path);
    } else if index < i {
        assert(iso.entries[index].path != iso.entries[i].path);
    }
}

/// Reading on keeps what was read, and adds what lies in a directory.
proof fn children_are_known(
    iso: IsoModel,
    spots: Seq<SpotModel>,
    trailing: bool,
    blocks: Seq<Block>,
    path: Seq<char>,
    index: int,
    read: Seq<EntryModel>,
)
    requires
        are_known(iso, read),
        0 <= index,
    ensures
        ({
            let all = child_entries_from(iso, spots, trailing, blocks, path, index, read);
            &&& are_known(iso, all)
            &&& all.len() >= read.len()
            &&& forall|e: int| 0 <= e < read.len() ==> all[e] == read[e]
            &&& forall|k: int|
                index <= k < iso.entries.len() && is_child(#[trigger] primary_nodes(iso)[k], path)
                    ==> is_listed(all, iso.entries[k].path)
        }),
    decreases iso.entries.len() - index,
{
    let nodes = primary_nodes(iso);
    if index < nodes.len() {
        if is_child(nodes[index], path) {
            let next = read_entry(iso, spots, trailing, blocks, index);
            let more = read.push(next);
            assert(is_of(iso, next, index));
            assert forall|e: int| 0 <= e < more.len() implies is_known(
                iso,
                #[trigger] more[e],
            ) by {
                if e < read.len() {
                    assert(more[e] == read[e]);
                } else {
                    assert(is_of(iso, more[e], index));
                }
            }
            children_are_known(iso, spots, trailing, blocks, path, index + 1, more);
            let all = child_entries_from(iso, spots, trailing, blocks, path, index, read);
            assert forall|e: int| 0 <= e < read.len() implies all[e] == read[e] by {
                assert(all[e] == more[e]);
            }
            assert(all[read.len() as int] == more[read.len() as int]);
            assert(is_listed(all, iso.entries[index].path));
        } else {
            children_are_known(iso, spots, trailing, blocks, path, index + 1, read);
        }
    }
}

/// What was read, with what stands behind the records of a directory told of it.
pub open spec fn with_told_slack(
    iso: IsoModel,
    directory: PlacementModel,
    entries: Seq<EntryModel>,
) -> Seq<EntryModel> {
    let at = entry_at(entries, directory.path, 0);
    if 0 <= at < entries.len() {
        entries.update(
            at,
            EntryModel {
                directory_slack: told_slack(iso.entries[directory.entry].directory_slack),
                ..entries[at]
            },
        )
    } else {
        entries
    }
}

/// What is told of a directory leaves the rest of what was read as it is.
proof fn slack_keeps_entries(iso: IsoModel, directory: PlacementModel, entries: Seq<EntryModel>)
    requires
        are_known(iso, entries),
        is_listed(entries, directory.path),
    ensures
        0 <= entry_at(entries, directory.path, 0) < entries.len(),
        are_known(iso, with_told_slack(iso, directory, entries)),
        forall|path: Seq<char>| #[trigger]
            is_listed(entries, path) ==> is_listed(
                with_told_slack(iso, directory, entries),
                path,
            ),
{
    let told = with_told_slack(iso, directory, entries);
    let place = choose|e: int|
        0 <= e < entries.len() && (#[trigger] entries[e]).path == directory.path;
    listed_is_found(entries, directory.path, place, 0);
    assert forall|e: int| 0 <= e < told.len() implies is_known(iso, #[trigger] told[e]) by {
        assert(is_known(iso, entries[e]));
        let i = choose|i: int| is_of(iso, entries[e], i);
        assert(is_of(iso, told[e], i));
    }
    assert forall|path: Seq<char>| #[trigger] is_listed(entries, path) implies is_listed(
        told,
        path,
    ) by {
        let e = choose|e: int| 0 <= e < entries.len() && (#[trigger] entries[e]).path == path;
        assert(told[e].path == path);
    }
}

/// What is known of whose time the records of directories above carry agrees with
/// the description.
pub open spec fn agrees_on_time(iso: IsoModel, known: Option<DirectoryParentRecordingTime>) -> bool {
    known matches Some(time) ==> time == iso.directory_parent_recording_time
}

/// A directory below the root has the time of the directory that holds it.
pub open spec fn has_time_of_parent(iso: IsoModel, state: PlacingModel, index: int) -> bool {
    let directories = state.primary.placements;
    index > 0 ==> read_time(iso, directories[index].entry) == read_time(
        iso,
        directories[directories[index].parent].entry,
    )
}

/// The record of the directory above carries a time that the description explains.
proof fn parent_time_is_read(
    iso: IsoModel,
    state: PlacingModel,
    blocks: Seq<Block>,
    entries: Seq<EntryModel>,
    index: int,
    known: Option<DirectoryParentRecordingTime>,
)
    requires
        is_walkable(iso, state, blocks),
        0 <= index < state.primary.placements.len(),
        are_known(iso, entries),
        is_listed(entries, state.primary.placements[index].path),
        is_listed(
            entries,
            state.primary.placements[state.primary.placements[index].parent].path,
        ),
        agrees_on_time(iso, known),
    ensures
        ({
            let directories = state.primary.placements;
            let recorded = recording_time_text(
                parent_model(
                    primary_nodes(iso),
                    directories[index],
                    directories[directories[index].parent],
                    primary_options(iso),
                ).recording_time,
            );
            let next = parent_time_with(entries, found_of(directories[index]), recorded, known);
            &&& next is Ok
            &&& agrees_on_time(iso, next->Ok_0)
            &&& next->Ok_0 is None ==> known is None && has_time_of_parent(iso, state, index)
        }),
{
    let directories = state.primary.placements;
    directories_follow_order(iso, directories);
    let nodes = primary_nodes(iso);
    let directory = directories[index];
    if index > 0 {
        assert(is_held(nodes, directories, index, directories.len() as int));
        let parent = directories[directory.parent];
        if directory.parent > 0 {
            assert(is_held(nodes, directories, directory.parent, directories.len() as int));
        }
        assert(0 <= parent.entry < iso.entries.len() && iso.entries[parent.entry].path
            == parent.path);
        listed_has_its_time(iso, entries, directory.entry);
        listed_has_its_time(iso, entries, parent.entry);
    }
}

/// The records of a directory are read as what it holds.
#[verifier::rlimit(60)]
#[verifier::spinoff_prover]
proof fn directory_is_visited(
    iso: IsoModel,
    state: PlacingModel,
    blocks: Seq<Block>,
    walk: WalkModel,
    index: int,
)
    requires
        is_walkable(iso, state, blocks),
        0 <= index < state.primary.placements.len(),
        !is_reference(iso, state.primary.placements[index]),
        are_known(iso, walk.entries),
        is_listed(walk.entries, state.primary.placements[index].path),
        is_listed(
            walk.entries,
            state.primary.placements[state.primary.placements[index].parent].path,
        ),
        agrees_on_time(iso, walk.parent_time),
        shows(walk.observation, iso.directory_record_packing),
    ensures
        ({
            let nodes = primary_nodes(iso);
            let spots = primary_spots(iso, state, nodes);
            let trailing = primary_options(iso).trailing_system_use_padding;
            let directory = state.primary.placements[index];
            let next = with_directory(blocks, iso.xa_system_use, walk, found_of(directory));
            &&& next is Ok
            &&& next->Ok_0.entries == child_entries_from(
                iso,
                spots,
                trailing,
                blocks,
                directory.path,
                0,
                with_told_slack(iso, directory, walk.entries),
            )
            &&& next->Ok_0.directories == child_directories_from(
                iso,
                spots,
                trailing,
                directory.path,
                0,
                walk.directories,
            )
            &&& tally_of(next->Ok_0) == child_tally_from(
                iso,
                spots,
                trailing,
                directory.path,
                0,
                tally_of(walk),
            )
            &&& agrees_on_time(iso, next->Ok_0.parent_time)
            &&& shows(next->Ok_0.observation, iso.directory_record_packing)
            &&& next->Ok_0.parent_time is None ==> walk.parent_time is None && has_time_of_parent(
                iso,
                state,
                index,
            )
            &&& !next->Ok_0.observation.skipped_exact_fit ==> !walk.observation.skipped_exact_fit
                && has_plain_packing(iso, state, index)
        }),
{
    reveal(with_directory);
    reveal(is_readable);
    let nodes = primary_nodes(iso);
    let spots = primary_spots(iso, state, nodes);
    let options = primary_options(iso);
    let trailing = options.trailing_system_use_padding;
    let directories = state.primary.placements;
    let directory = directories[index];
    let parent = directories[directory.parent];
    assert(is_readable(iso, state, blocks, index));
    let contents = directory_contents(blocks, directory.extent, directory.length)->Ok_0;
    let own = node_model(
        nodes[directory.entry],
        directory.extent,
        directory.length,
        seq![0u8],
        true,
        trailing,
        options.xa_system_use,
    );
    let above = parent_model(nodes, directory, parent, options);
    let first = seq![own, above];
    let records = directory_models(nodes, spots, directory, parent, options);
    assert(records == child_models_from(nodes, spots, directory.path, trailing, 0, first));
    models_stay_first(nodes, spots, directory.path, trailing, 0, first);
    assert(records[1] == above);
    records_are_accepted(iso, state, index);
    let entries = with_told_slack(iso, directory, walk.entries);
    slack_keeps_entries(iso, directory, walk.entries);
    let at = entry_at(walk.entries, directory.path, 0);
    assert(entries == walk.entries.update(
        at,
        EntryModel { directory_slack: contents.slack, ..walk.entries[at] },
    ));
    parent_time_is_read(iso, state, blocks, entries, index, walk.parent_time);
    let parent_time = parent_time_with(
        entries,
        found_of(directory),
        recording_time_text(above.recording_time),
        walk.parent_time,
    )->Ok_0;
    let middle = WalkModel {
        entries,
        parent_time,
        observation: merged(walk.observation, contents.observation),
        ..walk
    };
    children_are_read(iso, spots, trailing, blocks, directory.path, 0, first, middle);
}

/// The records of a directory pass their checks, and those of what lies in it can
/// be written.
pub proof fn records_are_accepted(iso: IsoModel, state: PlacingModel, index: int)
    requires
        is_tree(iso),
        are_sized(iso, state.primary.placements),
        0 <= index < state.primary.placements.len(),
        directory_records(
            primary_nodes(iso),
            primary_spots(iso, state, primary_nodes(iso)),
            state.primary.placements[index],
            state.primary.placements[state.primary.placements[index].parent],
            primary_options(iso),
        ) is Ok,
    ensures
        ({
            let nodes = primary_nodes(iso);
            let spots = primary_spots(iso, state, nodes);
            let directories = state.primary.placements;
            let directory = directories[index];
            let records = directory_models(
                nodes,
                spots,
                directory,
                directories[directory.parent],
                primary_options(iso),
            );
            &&& children_are_written(iso, spots, directory.path)
            &&& first_failure(
                listed_record_checks(records, iso.xa_system_use),
                0,
                records.len() as int,
            ) is Ok
            &&& parsed_xa(records[0].system_use, true, iso.xa_system_use) is Ok
            &&& (records[0].system_use.len() > 0) == iso.xa_system_use
            &&& records.len() >= 2
        }),
{
    let nodes = primary_nodes(iso);
    let spots = primary_spots(iso, state, nodes);
    let options = primary_options(iso);
    let trailing = options.trailing_system_use_padding;
    let directories = state.primary.placements;
    let directory = directories[index];
    let parent = directories[directory.parent];
    let own_record = node_record(
        nodes[directory.entry],
        directory.extent,
        directory.length,
        seq![0u8],
        true,
        trailing,
        options.xa_system_use,
    )->Ok_0;
    let above_record = parent_record(nodes, directory, parent, options)->Ok_0;
    made_children_are_written(
        iso,
        spots,
        directory.path,
        trailing,
        0,
        seq![own_record, above_record],
    );
    let own = node_model(
        nodes[directory.entry],
        directory.extent,
        directory.length,
        seq![0u8],
        true,
        trailing,
        options.xa_system_use,
    );
    let above = parent_model(nodes, directory, parent, options);
    dot_is_listed(
        iso,
        nodes[directory.entry],
        directory.extent,
        directory.length,
        seq![0u8],
        trailing,
        0,
    );
    dot_is_listed(
        iso,
        nodes[parent.entry],
        parent.extent,
        parent.length,
        seq![1u8],
        trailing,
        1,
    );
    let first = seq![own, above];
    assert forall|i: int| 0 <= i < first.len() implies listed_record_check(
        #[trigger] first[i],
        i,
        iso.xa_system_use,
    ) is Ok by {}
    children_are_listed(iso, spots, trailing, directory.path, 0, first);
    models_stay_first(nodes, spots, directory.path, trailing, 0, first);
    let records = directory_models(nodes, spots, directory, parent, options);
    let checks = listed_record_checks(records, iso.xa_system_use);
    first_failure_ok(checks, 0, records.len() as int);
    assert forall|i: int| 0 <= i < records.len() implies (#[trigger] checks(i)) is Ok by {
        assert(listed_record_check(records[i], i, iso.xa_system_use) is Ok);
    }
}

/// `read`, and then what lies in the directories from `index` on.
pub open spec fn tree_entries_from(
    iso: IsoModel,
    state: PlacingModel,
    blocks: Seq<Block>,
    index: int,
    read: Seq<EntryModel>,
) -> Seq<EntryModel>
    decreases state.primary.placements.len() - index,
{
    let directories = state.primary.placements;
    if index < 0 || index >= directories.len() {
        read
    } else if is_reference(iso, directories[index]) {
        tree_entries_from(iso, state, blocks, index + 1, read)
    } else {
        tree_entries_from(
            iso,
            state,
            blocks,
            index + 1,
            child_entries_from(
                iso,
                primary_spots(iso, state, primary_nodes(iso)),
                primary_options(iso).trailing_system_use_padding,
                blocks,
                directories[index].path,
                0,
                with_told_slack(iso, directories[index], read),
            ),
        )
    }
}

/// Nothing lies in a directory that is only referred to.
proof fn references_hold_nothing(
    iso: IsoModel,
    path: Seq<char>,
    parent: int,
    index: int,
    found: Seq<PlacementModel>,
)
    requires
        !has_child(iso.entries, path),
        path != root_path(),
        0 <= index,
    ensures
        subdirectories_from(primary_nodes(iso), path, parent, index, found) == found,
    decreases iso.entries.len() - index,
{
    let nodes = primary_nodes(iso);
    if index < nodes.len() {
        if is_subdirectory(nodes[index], path) {
            assert(iso.entries[index].path == path);
            parent_is_shorter(path);
            assert(false);
        }
        references_hold_nothing(iso, path, parent, index + 1, found);
    }
}

/// A directory that is only referred to has no length and holds nothing.
pub proof fn reference_is_empty(iso: IsoModel, directories: Seq<PlacementModel>, index: int)
    requires
        is_tree(iso),
        are_sized(iso, directories),
        0 <= index < directories.len(),
        is_reference(iso, directories[index]),
    ensures
        directories[index].length == 0,
        index > 0,
        !has_child(iso.entries, directories[index].path),
        directories[index].path != root_path(),
{
    directories_follow_order(iso, directories);
    let nodes = primary_nodes(iso);
    let ordered = primary_order(iso);
    let sized = sized_directory(iso, nodes, ordered[index])->Ok_0;
    assert(same_directory(directories[index], sized));
    let entry = directories[index].entry;
    if index == 0 {
        assert(entry_check(iso, 0) is Ok);
        assert(false);
    }
    assert(is_held(nodes, directories, index, directories.len() as int));
    assert(entry_check(iso, entry) is Ok);
}

/// A directory has a path.
proof fn directory_has_path(iso: IsoModel, directories: Seq<PlacementModel>, index: int)
    requires
        is_tree(iso),
        are_sized(iso, directories),
        0 <= index < directories.len(),
    ensures
        directories[index].path.len() > 0,
{
    directories_follow_order(iso, directories);
    if index > 0 {
        assert(is_held(primary_nodes(iso), directories, index, directories.len() as int));
        assert(entry_check(iso, directories[index].entry) is Ok);
        last_index_of_is_last(directories[index].path, '/');
    }
}

/// No directory that is not only referred to lies where an earlier one does.
proof fn no_extent_comes_again(
    iso: IsoModel,
    state: PlacingModel,
    blocks: Seq<Block>,
    walk: WalkModel,
    index: int,
    count: int,
)
    requires
        is_walkable(iso, state, blocks),
        0 <= index < count <= state.primary.placements.len(),
        walk.directories == all_found(state.primary.placements, count),
        !is_reference(iso, state.primary.placements[index]),
    ensures
        !visits_again(walk.directories, index),
        walk.directories[index].length != 0,
{
    reveal(is_readable);
    let directories = state.primary.placements;
    assert(is_readable(iso, state, blocks, index));
    if visits_again(walk.directories, index) {
        let i = choose|i: int|
            0 <= i < index && (#[trigger] walk.directories[i]).length != 0
                && walk.directories[i].extent == walk.directories[index].extent;
        assert(walk.directories[i] == found_of(directories[i]));
        if is_reference(iso, directories[i]) {
            reference_is_empty(iso, directories, i);
        } else {
            assert(directories[i].extent != directories[index].extent);
        }
    }
}

/// Once a directory was read, the directories in it are listed too.
proof fn more_are_listed(
    iso: IsoModel,
    state: PlacingModel,
    blocks: Seq<Block>,
    before: Seq<EntryModel>,
    after: Seq<EntryModel>,
    index: int,
    found: Seq<PlacementModel>,
    more: Seq<PlacementModel>,
)
    requires
        is_tree(iso),
        are_sized(iso, state.primary.placements),
        are_known(iso, before),
        0 <= index < found.len() <= more.len() <= state.primary.placements.len(),
        after == child_entries_from(
            iso,
            primary_spots(iso, state, primary_nodes(iso)),
            primary_options(iso).trailing_system_use_padding,
            blocks,
            state.primary.placements[index].path,
            0,
            before,
        ),
        more == primary_order(iso).take(more.len() as int),
        forall|m: int| found.len() <= m < more.len() ==> (#[trigger] more[m]).parent == index,
        forall|m: int|
            0 <= m < found.len() ==> is_listed(
                before,
                (#[trigger] state.primary.placements[m]).path,
            ),
    ensures
        are_known(iso, after),
        forall|m: int|
            0 <= m < more.len() ==> is_listed(
                after,
                (#[trigger] state.primary.placements[m]).path,
            ),
{
    let nodes = primary_nodes(iso);
    let directories = state.primary.placements;
    let directory = directories[index];
    let spots = primary_spots(iso, state, nodes);
    let trailing = primary_options(iso).trailing_system_use_padding;
    directories_follow_order(iso, directories);
    children_are_known(iso, spots, trailing, blocks, directory.path, 0, before);
    assert forall|m: int| 0 <= m < more.len() implies is_listed(
        after,
        (#[trigger] directories[m]).path,
    ) by {
        if m < found.len() {
            assert(is_listed(before, directories[m].path));
            let e = choose|e: int|
                0 <= e < before.len() && (#[trigger] before[e]).path == directories[m].path;
            assert(after[e] == before[e]);
        } else {
            assert(more[m].parent == index);
            assert(is_held(nodes, directories, m, directories.len() as int));
            assert(primary_order(iso).take(more.len() as int)[m] == more[m]);
            assert(directories[m].parent == index);
            let k = directories[m].entry;
            assert(is_child(nodes[k], directory.path));
            assert(is_listed(after, iso.entries[k].path));
        }
    }
}

/// What is told after the directories from `index` on.
pub open spec fn tree_tally_from(iso: IsoModel, state: PlacingModel, index: int, tally: Tally) -> Tally
    decreases state.primary.placements.len() - index,
{
    let directories = state.primary.placements;
    if index < 0 || index >= directories.len() {
        tally
    } else if is_reference(iso, directories[index]) {
        tree_tally_from(iso, state, index + 1, tally)
    } else {
        tree_tally_from(
            iso,
            state,
            index + 1,
            child_tally_from(
                iso,
                primary_spots(iso, state, primary_nodes(iso)),
                primary_options(iso).trailing_system_use_padding,
                directories[index].path,
                0,
                tally,
            ),
        )
    }
}

/// Where the first `count` directories lie that are no references.
spec fn own_extents(iso: IsoModel, directories: Seq<PlacementModel>, count: int) -> Set<int>
    decreases count,
{
    if count <= 0 {
        Set::empty()
    } else if is_reference(iso, directories[count - 1]) {
        own_extents(iso, directories, count - 1)
    } else {
        own_extents(iso, directories, count - 1).insert(directories[count - 1].extent as int)
    }
}

/// No more directories lie in an image than it has blocks.
proof fn own_extents_are_few(iso: IsoModel, state: PlacingModel, blocks: Seq<Block>, count: int)
    requires
        is_walkable(iso, state, blocks),
        0 <= count <= state.primary.placements.len(),
    ensures
        ({
            let directories = state.primary.placements;
            let extents = own_extents(iso, directories, count);
            &&& extents.finite()
            &&& extents.len() <= blocks.len()
            &&& forall|j: int|
                count <= j < directories.len() && !is_reference(iso, #[trigger] directories[j])
                    ==> !extents.contains(directories[j].extent as int)
            &&& forall|extent: int|
                extents.contains(extent) ==> #[trigger] set_int_range(
                    0,
                    blocks.len() as int,
                ).contains(extent)
        }),
    decreases count,
{
    if count > 0 {
        own_extents_are_few(iso, state, blocks, count - 1);
    }
    lemma_int_range(0, blocks.len() as int);
    lemma_len_subset(
        own_extents(iso, state.primary.placements, count),
        set_int_range(0, blocks.len() as int),
    );
}

/// The directories from `index` on have the times of those that hold them.
pub open spec fn have_times_of_parents(iso: IsoModel, state: PlacingModel, index: int) -> bool {
    forall|j: int|
        index <= j < state.primary.placements.len() && !is_reference(
            iso,
            #[trigger] state.primary.placements[j],
        ) ==> has_time_of_parent(iso, state, j)
}

/// The records of the directories from `index` on are packed as they would be if they
/// filled blocks to their ends.
pub open spec fn have_plain_packing(iso: IsoModel, state: PlacingModel, index: int) -> bool {
    forall|j: int|
        index <= j < state.primary.placements.len() && !is_reference(
            iso,
            #[trigger] state.primary.placements[j],
        ) ==> has_plain_packing(iso, state, j)
}

/// A walk goes on to the end of the tree.
#[verifier::rlimit(60)]
proof fn walk_goes_on(
    iso: IsoModel,
    state: PlacingModel,
    blocks: Seq<Block>,
    walk: WalkModel,
    index: int,
    visited: int,
    found: Seq<PlacementModel>,
)
    requires
        is_walkable(iso, state, blocks),
        in_progress(primary_nodes(iso), found, index),
        directory_order_from(
            primary_nodes(iso),
            index,
            found,
            ErrorKind::UnreachableDirectory,
        ) == Ok::<Seq<PlacementModel>, Failure>(primary_order(iso)),
        walk.directories == all_found(state.primary.placements, found.len() as int),
        are_known(iso, walk.entries),
        forall|m: int|
            0 <= m < found.len() ==> is_listed(
                walk.entries,
                (#[trigger] state.primary.placements[m]).path,
            ),
        agrees_on_time(iso, walk.parent_time),
        shows(walk.observation, iso.directory_record_packing),
        0 <= visited == own_extents(iso, state.primary.placements, index).len(),
    ensures
        ({
            let next = walked_from(blocks, iso.xa_system_use, walk, index, visited);
            &&& next is Ok
            &&& next->Ok_0.entries == tree_entries_from(iso, state, blocks, index, walk.entries)
            &&& next->Ok_0.directories == all_found(
                state.primary.placements,
                state.primary.placements.len() as int,
            )
            &&& tally_of(next->Ok_0) == tree_tally_from(iso, state, index, tally_of(walk))
            &&& agrees_on_time(iso, next->Ok_0.parent_time)
            &&& shows(next->Ok_0.observation, iso.directory_record_packing)
            &&& next->Ok_0.parent_time is None ==> walk.parent_time is None
                && have_times_of_parents(iso, state, index)
            &&& !next->Ok_0.observation.skipped_exact_fit ==> !walk.observation.skipped_exact_fit
                && have_plain_packing(iso, state, index)
        }),
    decreases state.primary.placements.len() - index,
{
    let nodes = primary_nodes(iso);
    let directories = state.primary.placements;
    let ordered = primary_order(iso);
    tree_has_nodes(iso);
    order_is_kept(nodes, index, found, ErrorKind::UnreachableDirectory);
    directories_follow_order(iso, directories);
    if index >= found.len() {
        assert(found =~= ordered);
    } else {
        own_extents_are_few(iso, state, blocks, index);
        let directory = directories[index];
        assert(walk.directories[index] == found_of(directory));
        assert(ordered.take(found.len() as int)[index] == found[index]);
        assert(directory.path == found[index].path);
        progress_is_kept(nodes, found, index);
        let more = subdirectories_from(nodes, found[index].path, index, 0, found);
        if is_reference(iso, directory) {
            reference_is_empty(iso, directories, index);
            references_hold_nothing(iso, directory.path, index, 0, found);
            walk_goes_on(iso, state, blocks, walk, index + 1, visited, found);
        } else {
            no_extent_comes_again(iso, state, blocks, walk, index, found.len() as int);
            assert(directory.parent == found[index].parent);
            assert(0 <= directory.parent < found.len()) by {
                if index > 0 {
                    assert(is_held(nodes, directories, index, directories.len() as int));
                }
            }
            assert(is_listed(walk.entries, directories[directory.parent].path));
            directory_has_path(iso, directories, index);
            assert(addressed(found_of(directory)) == found_of(directory));
            directory_is_visited(iso, state, blocks, walk, index);
            let next = with_directory(blocks, iso.xa_system_use, walk, found_of(directory))->Ok_0;
            order_is_kept(nodes, index + 1, more, ErrorKind::UnreachableDirectory);
            assert(more =~= ordered.take(more.len() as int));
            next_directories_are_found(
                iso,
                state,
                directory.path,
                index,
                0,
                found,
                walk.directories,
            );
            let told = with_told_slack(iso, directory, walk.entries);
            slack_keeps_entries(iso, directory, walk.entries);
            assert forall|m: int| 0 <= m < found.len() implies is_listed(
                told,
                (#[trigger] directories[m]).path,
            ) by {
                assert(is_listed(walk.entries, directories[m].path));
            }
            more_are_listed(iso, state, blocks, told, next.entries, index, found, more);
            walk_goes_on(iso, state, blocks, next, index + 1, visited + 1, more);
        }
    }
}

/// A walk that begins at the root finds the whole tree: all directories, each where
/// it lies, and below them everything that the description has in them, in order.
pub proof fn walk_finds_tree(iso: IsoModel, state: PlacingModel, blocks: Seq<Block>, start: WalkModel)
    requires
        is_walkable(iso, state, blocks),
        start.directories == seq![found_of(state.primary.placements[0])],
        start.entries.len() == 1,
        is_of(iso, start.entries[0], 0),
        start.parent_time is None,
        shows(start.observation, iso.directory_record_packing),
    ensures
        ({
            let walk = walked_from(blocks, iso.xa_system_use, start, 0, 0);
            &&& walk is Ok
            &&& walk->Ok_0.entries == tree_entries_from(iso, state, blocks, 0, start.entries)
            &&& walk->Ok_0.directories == all_found(
                state.primary.placements,
                state.primary.placements.len() as int,
            )
            &&& tally_of(walk->Ok_0) == tree_tally_from(iso, state, 0, tally_of(start))
            &&& agrees_on_time(iso, walk->Ok_0.parent_time)
            &&& shows(walk->Ok_0.observation, iso.directory_record_packing)
            &&& walk->Ok_0.parent_time is None ==> have_times_of_parents(iso, state, 0)
            &&& !walk->Ok_0.observation.skipped_exact_fit ==> have_plain_packing(iso, state, 0)
        }),
{
    let nodes = primary_nodes(iso);
    let found = seq![unplaced(root_path(), seq![0u8], 0, 0)];
    tree_has_nodes(iso);
    directories_follow_order(iso, state.primary.placements);
    assert(start.directories =~= all_found(state.primary.placements, 1));
    assert(is_known(iso, start.entries[0]));
    assert(is_listed(start.entries, root_path())) by {
        assert(start.entries[0].path == root_path());
    }
    walk_goes_on(iso, state, blocks, start, 0, 0, found);
}

} // verus!
