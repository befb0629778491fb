//! The description that is told of an image passes its checks.
use vstd::prelude::*;

use crate::error::Failure;
use crate::iso9660::description::{EntryModel, IsoModel, JolietModel};
use crate::iso9660::descriptor::parsed_volume;
use crate::iso9660::directory_laws::told_slack;
use crate::iso9660::file_order_laws::{
    checked_files, extents_show, lengths_show,
};
use crate::iso9660::joliet_parse_laws::lengths_are_allocated;
use crate::iso9660::layout::{placed_filesystem, primary_options, LayoutModel, Placed};
use crate::iso9660::layout_laws::{places_of, size_of_volume};
use crate::iso9660::parse_laws::{
    descriptor_of, spots_of, tables_stand_apart, told, told_entries, told_tally, told_volume,
};
use crate::iso9660::paths::path_check;
use crate::iso9660::placing::FileLengthModel;
use crate::iso9660::record::{is_cdda, parsed_xa, system_use_bytes};
use crate::iso9660::retelling_laws::{origins_are_complete, told_entry, told_origins};
use crate::iso9660::retold_layout_laws::{retells, retells_entry};
use crate::iso9660::selection_laws::same_node;
use crate::iso9660::told_entries_laws::{
    all_are_written, all_entries_are_told, are_omissions, entry_is_told, forms_show,
    has_whole_lengths, is_plain_image, lengths_are_told, omissions_are_told, omits_rightly,
    plain_image_has, policy_is_told, refers_to_nothing, standard_path_passes,
};
use crate::iso9660::tree::{is_file, is_omitted, is_referenced, primary_nodes};
use crate::iso9660::validate::{
    description_check, duplicate_checks, entry_check, entry_checks, extent_check, file_item_check,
    file_item_checks, framing_check, has_child, is_form2_xa, is_known, is_primary_directory,
    joliet_check, joliet_entry_checks, joliet_settings_check, metadata_check, omission_checks,
    only_record_fields, path_before, place_check, placement_checks, reference_entry_check,
    settings_check, version_fits, xa_check,
};
use crate::iso9660::walk::uses_xa;
use crate::iso9660::walk_laws::{is_tree, model_at, written_xa_is_accepted, xa_at};
use crate::manifest::{
    DirectoryLengthPolicy, DirectoryParentRecordingTime, DirectoryRecordPacking,
    EntrySectorSubheader,
};
use crate::model::{first_failure, first_failure_ok};
use crate::raw_cd::Block;
use crate::text::{parent_of, root_path};

verus! {

/// Which lengths directories are told to record.
pub open spec fn told_policy(iso: IsoModel, placed: Placed) -> DirectoryLengthPolicy {
    if iso.supplementary_volumes.len() == 0 || has_whole_lengths(iso, placed) {
        DirectoryLengthPolicy::Allocated
    } else {
        DirectoryLengthPolicy::Records
    }
}

/// What is told of an image that was laid out, where the given Joliet volumes are told of
/// it and its metadata area is told as it was described.
pub open spec fn told_of(
    iso: IsoModel,
    lengths: Seq<FileLengthModel>,
    blocks: Seq<Block>,
    packing: DirectoryRecordPacking,
    time: DirectoryParentRecordingTime,
    volumes: Seq<JolietModel>,
) -> IsoModel {
    IsoModel {
        supplementary_volumes: volumes,
        metadata_layout: iso.metadata_layout,
        directory_length_policy: told_policy(iso, places_of(iso, lengths)),
        ..told(iso, places_of(iso, lengths), size_of_volume(iso, lengths), blocks, packing, time)
    }
}

/// Directories that are told to record the lengths of their blocks do, and so do all that
/// are described to.
pub proof fn length_policy_holds(iso: IsoModel, lengths: Seq<FileLengthModel>, placed: Placed)
    requires
        placed_filesystem(iso, lengths) == Ok::<Placed, Failure>(placed),
        description_check(iso) is Ok,
        lengths_are_told(iso, placed),
    ensures
        told_policy(iso, placed) == DirectoryLengthPolicy::Allocated ==> has_whole_lengths(
            iso,
            placed,
        ),
        told_policy(iso, placed) == DirectoryLengthPolicy::Records ==> iso.directory_length_policy
            == DirectoryLengthPolicy::Records && refers_to_nothing(iso),
{
    if iso.directory_length_policy == DirectoryLengthPolicy::Allocated {
        lengths_are_allocated(iso, lengths, placed);
    }
}

/// The files of an image are read as what they are.
#[verifier::opaque]
pub open spec fn shows_files(iso: IsoModel, lengths: Seq<FileLengthModel>) -> bool {
    let state = places_of(iso, lengths).state;
    &&& extents_show(iso, state)
    &&& lengths_show(iso, state)
    &&& forms_show(iso, state)
}

/// Every entry is told once, of the entry that its origin names.
pub open spec fn are_linked(iso: IsoModel, told: IsoModel, origins: Seq<int>) -> bool {
    &&& told.files == iso.files
    &&& told.entries.len() == origins.len()
    &&& forall|e: int|
        0 <= e < origins.len() ==> 0 <= #[trigger] origins[e] < iso.entries.len() && retells_entry(
            iso,
            told,
            origins[e],
            e,
        )
    &&& forall|k: int| 0 <= k < iso.entries.len() ==> #[trigger] origins.contains(k)
    &&& forall|e: int, f: int|
        0 <= e < f < origins.len() ==> #[trigger] origins[e] != #[trigger] origins[f]
    &&& origins.len() > 0
    &&& origins[0] == 0
}

/// The path is a file's exactly where it was one.
proof fn files_are_retold(
    iso: IsoModel,
    told: IsoModel,
    origins: Seq<int>,
    path: Seq<char>,
)
    requires
        are_linked(iso, told, origins),
    ensures
        is_referenced(told.entries, path) == is_referenced(iso.entries, path),
        is_file(told, path) == is_file(iso, path),
        is_known(told.entries, path) == is_known(iso.entries, path),
        is_primary_directory(told, path) == is_primary_directory(iso, path),
        has_child(told.entries, path) == has_child(iso.entries, path),
{
    if is_referenced(told.entries, path) {
        let e = choose|e: int|
            0 <= e < told.entries.len() && (#[trigger] told.entries[e]).path == path
                && told.entries[e].extent is Some;
        assert(retells_entry(iso, told, origins[e], e));
        assert(iso.entries[origins[e]].path == path);
    }
    if is_referenced(iso.entries, path) {
        let k = choose|k: int|
            0 <= k < iso.entries.len() && (#[trigger] iso.entries[k]).path == path
                && iso.entries[k].extent is Some;
        assert(origins.contains(k));
        let e = choose|e: int| 0 <= e < origins.len() && origins[e] == k;
        assert(retells_entry(iso, told, origins[e], e));
        assert(told.entries[e].path == path);
    }
    if is_known(told.entries, path) {
        let e = choose|e: int|
            0 <= e < told.entries.len() && (#[trigger] told.entries[e]).path == path;
        assert(retells_entry(iso, told, origins[e], e));
        assert(iso.entries[origins[e]].path == path);
    }
    if is_known(iso.entries, path) {
        let k = choose|k: int|
            0 <= k < iso.entries.len() && (#[trigger] iso.entries[k]).path == path;
        assert(origins.contains(k));
        let e = choose|e: int| 0 <= e < origins.len() && origins[e] == k;
        assert(retells_entry(iso, told, origins[e], e));
        assert(told.entries[e].path == path);
    }
    if has_child(told.entries, path) {
        let e = choose|e: int|
            0 <= e < told.entries.len() && (#[trigger] told.entries[e]).path != path && parent_of(
                told.entries[e].path,
            ) == path;
        assert(retells_entry(iso, told, origins[e], e));
        assert(iso.entries[origins[e]].path != path);
    }
    if has_child(iso.entries, path) {
        let k = choose|k: int|
            0 <= k < iso.entries.len() && (#[trigger] iso.entries[k]).path != path && parent_of(
                iso.entries[k].path,
            ) == path;
        assert(origins.contains(k));
        let e = choose|e: int| 0 <= e < origins.len() && origins[e] == k;
        assert(retells_entry(iso, told, origins[e], e));
        assert(told.entries[e].path != path);
    }
}

/// What is told of an image is told of each entry.
proof fn entries_are_retold(
    iso: IsoModel,
    lengths: Seq<FileLengthModel>,
    layout: LayoutModel,
    blocks: Seq<Block>,
    packing: DirectoryRecordPacking,
    time: DirectoryParentRecordingTime,
    volumes: Seq<JolietModel>,
)
    requires
        is_plain_image(iso, lengths, layout, blocks),
        shows_files(iso, lengths),
    ensures
        ({
            let again = told_of(iso, lengths, blocks, packing, time, volumes);
            let state = places_of(iso, lengths).state;
            let origins = told_origins(iso, state);
            &&& are_linked(iso, again, origins)
            &&& forall|e: int|
                0 <= e < origins.len() ==> #[trigger] again.entries[e] == told_entry(
                    iso,
                    state,
                    blocks,
                    origins[e],
                )
        }),
{
    reveal(told);
    reveal(shows_files);
    plain_image_has(iso, lengths, layout, blocks);
    let state = places_of(iso, lengths).state;
    let origins = told_origins(iso, state);
    let again = told_of(iso, lengths, blocks, packing, time, volumes);
    origins_are_complete(iso, state);
    all_entries_are_told(iso, lengths, layout, blocks);
    assert(again.entries == told_entries(iso, state, blocks));
    assert forall|e: int| 0 <= e < origins.len() implies 0 <= #[trigger] origins[e]
        < iso.entries.len() && retells_entry(iso, again, origins[e], e) by {
        if e > 0 {
            assert(0 < origins[e] < primary_nodes(iso).len());
        }
        entry_is_told(iso, lengths, layout, blocks, origins[e]);
        assert(again.entries[e] == told_entry(iso, state, blocks, origins[e]));
    }
    assert forall|k: int| 0 <= k < iso.entries.len() implies #[trigger] origins.contains(k) by {
        assert(0 <= k < primary_nodes(iso).len());
    }
}

/// What is told of an image describes what it was laid out from.
pub proof fn image_is_retold(
    iso: IsoModel,
    lengths: Seq<FileLengthModel>,
    layout: LayoutModel,
    blocks: Seq<Block>,
    packing: DirectoryRecordPacking,
    time: DirectoryParentRecordingTime,
    volumes: Seq<JolietModel>,
)
    requires
        is_plain_image(iso, lengths, layout, blocks),
        shows_files(iso, lengths),
        volumes.len() == iso.supplementary_volumes.len(),
    ensures
        retells(
            iso,
            told_of(iso, lengths, blocks, packing, time, volumes),
            told_origins(iso, places_of(iso, lengths).state),
        ),
        ({
            let again = told_of(iso, lengths, blocks, packing, time, volumes);
            let state = places_of(iso, lengths).state;
            let origins = told_origins(iso, state);
            forall|e: int|
                0 <= e < origins.len() ==> #[trigger] again.entries[e] == told_entry(
                    iso,
                    state,
                    blocks,
                    origins[e],
                )
        }),
{
    entries_are_retold(iso, lengths, layout, blocks, packing, time, volumes);
    omissions_are_told(iso, lengths, layout, blocks);
    plain_image_has(iso, lengths, layout, blocks);
    let state = places_of(iso, lengths).state;
    let origins = told_origins(iso, state);
    let again = told_of(iso, lengths, blocks, packing, time, volumes);
    origins_are_complete(iso, state);
    assert(again.xa_system_use_omissions == told_tally(iso, state).omissions && again.xa_system_use
        == iso.xa_system_use && again.primary_volume_copies == iso.primary_volume_copies
        && again.path_table_padding == iso.path_table_padding && again.path_table_copies
        == iso.path_table_copies && (iso.supplementary_volumes.len() == 0
        ==> again.path_table_order == iso.path_table_order)) by {
        reveal(told);
        reveal(is_plain_image);
        assert(metadata_check(iso) is Ok && iso.supplementary_volumes.len() <= 1);
        tables_stand_apart(iso, lengths, places_of(iso, lengths));
    }
    let nodes = primary_nodes(iso);
    let nodes_again = primary_nodes(again);
    assert(nodes_again.len() == origins.len());
    assert forall|e: int| 0 <= e < origins.len() implies 0 <= #[trigger] origins[e] < nodes.len()
        && same_node(nodes[origins[e]], nodes_again[e]) by {
        let k = origins[e];
        assert(retells_entry(iso, again, k, e));
        files_are_retold(iso, again, origins, iso.entries[k].path);
        assert(omits_rightly(
            iso,
            told_tally(iso, state).omissions,
            iso.entries[k].path,
            k,
        ));
        assert(is_omitted(again, iso.entries[k].path) == (iso.xa_system_use
            && !nodes[k].system_use));
    }
}

/// An entry is told as one that is read.
pub open spec fn is_told_well(iso: IsoModel, index: int, entry: EntryModel) -> bool {
    let described = iso.entries[index];
    let node = primary_nodes(iso)[index];
    &&& entry.path == described.path
    &&& entry.directory_reference == described.directory_reference
    &&& (entry.extent is Some) == (described.extent is Some)
    &&& (entry.length is Some) == (described.extent is Some)
    &&& entry.directory_slack == told_slack(described.directory_slack)
    &&& !entry.unbacked
    &&& entry.sector_subheader == EntrySectorSubheader::Canonical
    &&& is_cdda(entry.xa) == (described.extent is Some)
    &&& entry.allocation_padding_hex is Some ==> !node.directory && described.extent is None
    &&& described.extent is Some ==> !node.directory
    &&& system_use_bytes(entry.path, entry.xa, node.directory, node.system_use) is Ok
    &&& described.extent is None ==> !is_form2_xa(entry.xa)
    &&& entry.xa matches Some(xa) ==> only_record_fields(xa) && xa.gap_index is None
}

/// An entry that is told as one that is read passes its checks.
proof fn well_told_passes(
    iso: IsoModel,
    told: IsoModel,
    origins: Seq<int>,
    index: int,
)
    requires
        is_tree(iso),
        are_linked(iso, told, origins),
        0 <= index < origins.len(),
        is_told_well(iso, origins[index], told.entries[index]),
        (told.xa_system_use && !is_omitted(told, iso.entries[origins[index]].path))
            == primary_nodes(iso)[origins[index]].system_use,
        index > 0 ==> path_check(
            iso.entries[origins[index]].path,
            !primary_nodes(iso)[origins[index]].directory,
            told.identifier_policy,
        ) is Ok,
    ensures
        entry_check(told, index) is Ok,
{
    let k = origins[index];
    let path = iso.entries[k].path;
    let node = primary_nodes(iso)[k];
    let entry = told.entries[index];
    files_are_retold(iso, told, origins, path);
    files_are_retold(iso, told, origins, parent_of(path));
    assert(entry_check(iso, k) is Ok);
    assert(index > 0 ==> k != 0) by {
        if index > 0 {
            assert(origins[0] != origins[index]);
        }
    }
    let file = is_file(told, path);
    assert(file == !node.directory);
    assert(reference_entry_check(told, index) is Ok);
    assert(extent_check(entry, file) is Ok);
    assert(xa_check(entry, file) is Ok);
    assert(place_check(told, index) is Ok);
}

/// What is read of an entry's XA data is what a record carries.
proof fn read_xa_is_plain(iso: IsoModel, lengths: Seq<FileLengthModel>, index: int)
    ensures
        xa_at(
            iso,
            spots_of(iso, places_of(iso, lengths).state),
            primary_options(iso).trailing_system_use_padding,
            index,
        ) matches Some(xa) ==> parsed_xa(
            model_at(
                iso,
                spots_of(iso, places_of(iso, lengths).state),
                primary_options(iso).trailing_system_use_padding,
                index,
            ).system_use,
            primary_nodes(iso)[index].directory,
            uses_xa(
                model_at(
                    iso,
                    spots_of(iso, places_of(iso, lengths).state),
                    primary_options(iso).trailing_system_use_padding,
                    index,
                ),
                iso.xa_system_use,
            ),
        ) is Ok ==> only_record_fields(xa) && xa.gap_index is None,
{
}

/// The entries that are told are told as they are read.
pub proof fn entry_is_told_well(
    iso: IsoModel,
    lengths: Seq<FileLengthModel>,
    layout: LayoutModel,
    blocks: Seq<Block>,
    index: int,
)
    requires
        is_plain_image(iso, lengths, layout, blocks),
        shows_files(iso, lengths),
        0 <= index < iso.entries.len(),
    ensures
        is_told_well(
            iso,
            index,
            told_entry(iso, places_of(iso, lengths).state, blocks, index),
        ),
{
    let state = places_of(iso, lengths).state;
    assert(extents_show(iso, state) && forms_show(iso, state)) by {
        reveal(shows_files);
    }
    entry_is_told(iso, lengths, layout, blocks, index);
    all_are_written(iso, lengths, layout, blocks, index);
    let node = primary_nodes(iso)[index];
    let record = model_at(
        iso,
        spots_of(iso, state),
        primary_options(iso).trailing_system_use_padding,
        index,
    );
    written_xa_is_accepted(node.path, node.xa, node.directory, node.system_use, record.system_use);
    read_xa_is_plain(iso, lengths, index);
    assert(iso.entries[index].extent is None ==> !is_form2_xa(
        xa_at(
            iso,
            spots_of(iso, state),
            primary_options(iso).trailing_system_use_padding,
            index,
        ),
    ));
}

/// The entries that are told pass their checks.
proof fn told_entry_passes(
    iso: IsoModel,
    lengths: Seq<FileLengthModel>,
    layout: LayoutModel,
    blocks: Seq<Block>,
    packing: DirectoryRecordPacking,
    time: DirectoryParentRecordingTime,
    volumes: Seq<JolietModel>,
    index: int,
)
    requires
        is_plain_image(iso, lengths, layout, blocks),
        shows_files(iso, lengths),
        0 <= index < told_origins(iso, places_of(iso, lengths).state).len(),
        volumes.len() == iso.supplementary_volumes.len(),
    ensures
        entry_check(told_of(iso, lengths, blocks, packing, time, volumes), index) is Ok,
{
    entries_are_retold(iso, lengths, layout, blocks, packing, time, volumes);
    image_is_retold(iso, lengths, layout, blocks, packing, time, volumes);
    let state = places_of(iso, lengths).state;
    let origins = told_origins(iso, state);
    let again = told_of(iso, lengths, blocks, packing, time, volumes);
    let k = origins[index];
    entry_is_told_well(iso, lengths, layout, blocks, k);
    assert(again.entries[index] == told_entry(iso, state, blocks, k));
    assert(same_node(primary_nodes(iso)[k], primary_nodes(again)[index]));
    assert(is_tree(iso)) by {
        plain_image_has(iso, lengths, layout, blocks);
    }
    if index > 0 {
        assert(origins[0] != origins[index]);
        path_passes(iso, lengths, layout, blocks, k);
        assert(again.identifier_policy == told_tally(iso, state).policy) by {
            reveal(told);
        }
    }
    well_told_passes(iso, again, origins, index);
}

/// The paths pass the check for what is told of the names.
proof fn path_passes(
    iso: IsoModel,
    lengths: Seq<FileLengthModel>,
    layout: LayoutModel,
    blocks: Seq<Block>,
    index: int,
)
    requires
        is_plain_image(iso, lengths, layout, blocks),
        0 < index < iso.entries.len(),
    ensures
        path_check(
            iso.entries[index].path,
            !primary_nodes(iso)[index].directory,
            told_tally(iso, places_of(iso, lengths).state).policy,
        ) is Ok,
{
    policy_is_told(iso, lengths, layout, blocks);
    assert(is_tree(iso)) by {
        plain_image_has(iso, lengths, layout, blocks);
    }
    assert(entry_check(iso, index) is Ok);
    if told_tally(iso, places_of(iso, lengths).state).policy != iso.identifier_policy {
        standard_path_passes(iso, index);
    }
}

/// No two entries that are told have one path.
proof fn told_paths_differ(iso: IsoModel, told: IsoModel, origins: Seq<int>)
    requires
        is_tree(iso),
        are_linked(iso, told, origins),
    ensures
        first_failure(duplicate_checks(told.entries), 0, told.entries.len() as int) is Ok,
{
    let duplicates = duplicate_checks(told.entries);
    first_failure_ok(duplicates, 0, told.entries.len() as int);
    assert forall|i: int| 0 <= i < told.entries.len() implies (#[trigger] duplicates(
        i,
    )) is Ok by {
        assert(retells_entry(iso, told, origins[i], i));
        if path_before(told.entries, i, told.entries[i].path) {
            let j = choose|j: int|
                0 <= j < i && j < told.entries.len() && (#[trigger] told.entries[j]).path
                    == told.entries[i].path;
            assert(retells_entry(iso, told, origins[j], j));
            assert(origins[j] != origins[i]);
            if origins[j] < origins[i] {
                assert(iso.entries[origins[j]].path != iso.entries[origins[i]].path);
            } else {
                assert(iso.entries[origins[i]].path != iso.entries[origins[j]].path);
            }
        }
    }
}

/// The file area that is told passes its checks.
proof fn told_files_pass(iso: IsoModel, told: IsoModel, origins: Seq<int>)
    requires
        description_check(iso) is Ok,
        are_linked(iso, told, origins),
        forall|i: int| 0 <= i < iso.files.len() ==> (#[trigger] iso.files[i]) is Path,
    ensures
        first_failure(file_item_checks(told), 0, told.files.len() as int) is Ok,
        first_failure(placement_checks(told), 0, told.files.len() as int) is Ok,
{
    checked_files(iso);
    let files = file_item_checks(told);
    first_failure_ok(files, 0, told.files.len() as int);
    let placements = placement_checks(told);
    first_failure_ok(placements, 0, told.files.len() as int);
    assert forall|i: int| 0 <= i < told.files.len() implies (#[trigger] files(i)) is Ok by {
        assert(iso.files[i] is Path);
        assert(file_item_check(iso, i) is Ok);
        files_are_retold(iso, told, origins, told.files[i]->Path_path);
    }
    assert forall|i: int| 0 <= i < told.files.len() implies (#[trigger] placements(i)) is Ok by {
        assert(iso.files[i] is Path);
    }
}

/// The files that are told to have no XA data pass their checks.
proof fn told_omissions_pass(iso: IsoModel, told: IsoModel, origins: Seq<int>)
    requires
        are_linked(iso, told, origins),
        told.xa_system_use == iso.xa_system_use,
        are_omissions(iso, told.xa_system_use_omissions),
    ensures
        first_failure(
            omission_checks(told),
            0,
            told.xa_system_use_omissions.len() as int,
        ) is Ok,
{
    let omitted = told.xa_system_use_omissions;
    let omissions = omission_checks(told);
    first_failure_ok(omissions, 0, omitted.len() as int);
    assert forall|i: int| 0 <= i < omitted.len() implies (#[trigger] omissions(i)) is Ok by {
        files_are_retold(iso, told, origins, omitted[i]);
        assert(is_file(iso, omitted[i]));
        if omitted.take(i).contains(omitted[i]) {
            let a = choose|a: int|
                0 <= a < omitted.take(i).len() && omitted.take(i)[a] == omitted[i];
            assert(omitted[a] != omitted[i]);
        }
    }
}

/// What is told beside the entries and files.
proof fn told_settings(
    iso: IsoModel,
    lengths: Seq<FileLengthModel>,
    blocks: Seq<Block>,
    packing: DirectoryRecordPacking,
    time: DirectoryParentRecordingTime,
    volumes: Seq<JolietModel>,
)
    ensures
        ({
            let again = told_of(iso, lengths, blocks, packing, time, volumes);
            &&& parsed_volume(
                descriptor_of(iso, places_of(iso, lengths), size_of_volume(iso, lengths)),
                false,
            ) is Ok ==> version_fits(again.primary_volume.file_structure_version)
            &&& again.primary_volume_copies == iso.primary_volume_copies
            &&& again.path_table_padding == iso.path_table_padding
            &&& again.path_table_copies == iso.path_table_copies
            &&& again.metadata_framing_subheader is None
            &&& again.path_table_framing_subheader is None
            &&& again.xa_system_use == iso.xa_system_use
            &&& again.xa_system_use_omissions == told_tally(
                iso,
                places_of(iso, lengths).state,
            ).omissions
        }),
{
    reveal(told);
    let volume = told_volume(
        iso,
        places_of(iso, lengths),
        size_of_volume(iso, lengths),
        blocks,
    );
    parsed_version_fits(
        descriptor_of(iso, places_of(iso, lengths), size_of_volume(iso, lengths)),
    );
}

/// A version that is read is the standard one or zero.
proof fn parsed_version_fits(block: Seq<u8>)
    ensures
        parsed_volume(block, false) matches Ok(volume) ==> version_fits(
            volume.file_structure_version,
        ),
{
}

/// A Joliet volume passes the checks of one that a description with the same files has.
pub open spec fn joliet_passes(iso: IsoModel, volume: JolietModel) -> bool {
    &&& version_fits(volume.descriptor.file_structure_version)
    &&& joliet_settings_check(volume) is Ok
    &&& first_failure(joliet_entry_checks(iso, volume), 0, volume.entries.len() as int) is Ok
}

/// A Joliet volume that passes its checks passes them beside what is told.
proof fn told_joliet_passes(
    iso: IsoModel,
    told: IsoModel,
    origins: Seq<int>,
    volume: JolietModel,
)
    requires
        are_linked(iso, told, origins),
        joliet_passes(iso, volume),
    ensures
        joliet_passes(told, volume),
{
    let checks = joliet_entry_checks(iso, volume);
    let again = joliet_entry_checks(told, volume);
    first_failure_ok(checks, 0, volume.entries.len() as int);
    first_failure_ok(again, 0, volume.entries.len() as int);
    assert forall|i: int| 0 <= i < volume.entries.len() implies (#[trigger] again(i)) is Ok by {
        assert(checks(i) is Ok);
        if let Some(source) = volume.entries[i].source {
            files_are_retold(iso, told, origins, source);
        }
    }
}

/// What is told besides entries and files passes its checks.
proof fn told_head_passes(iso: IsoModel, told: IsoModel)
    requires
        settings_check(iso) is Ok,
        metadata_check(iso) is Ok,
        version_fits(told.primary_volume.file_structure_version),
        told.primary_volume_copies == iso.primary_volume_copies,
        told.supplementary_volumes.len() == iso.supplementary_volumes.len(),
        told.metadata_layout == iso.metadata_layout,
        told.path_table_padding == iso.path_table_padding,
        told.path_table_copies == iso.path_table_copies,
        told.metadata_framing_subheader is None,
        told.path_table_framing_subheader is None,
        told.entries.len() > 0,
        told.entries[0].path == root_path(),
        told.supplementary_volumes.len() > 0 ==> joliet_passes(told, told.supplementary_volumes[0]),
    ensures
        settings_check(told) is Ok,
        metadata_check(told) is Ok,
        framing_check(told) is Ok,
        joliet_check(told) is Ok,
{
}

/// A description passes its checks where it passes each.
proof fn checks_add_up(iso: IsoModel)
    requires
        settings_check(iso) is Ok,
        metadata_check(iso) is Ok,
        framing_check(iso) is Ok,
        joliet_check(iso) is Ok,
        first_failure(duplicate_checks(iso.entries), 0, iso.entries.len() as int) is Ok,
        first_failure(file_item_checks(iso), 0, iso.files.len() as int) is Ok,
        first_failure(omission_checks(iso), 0, iso.xa_system_use_omissions.len() as int) is Ok,
        first_failure(placement_checks(iso), 0, iso.files.len() as int) is Ok,
        first_failure(entry_checks(iso), 0, iso.entries.len() as int) is Ok,
    ensures
        description_check(iso) is Ok,
{
}

/// The description that is told of an image passes its checks.
pub proof fn told_passes(
    iso: IsoModel,
    lengths: Seq<FileLengthModel>,
    layout: LayoutModel,
    blocks: Seq<Block>,
    packing: DirectoryRecordPacking,
    time: DirectoryParentRecordingTime,
    volumes: Seq<JolietModel>,
)
    requires
        is_plain_image(iso, lengths, layout, blocks),
        shows_files(iso, lengths),
        parsed_volume(
            descriptor_of(iso, places_of(iso, lengths), size_of_volume(iso, lengths)),
            false,
        ) is Ok,
        volumes.len() == iso.supplementary_volumes.len(),
        volumes.len() > 0 ==> joliet_passes(iso, volumes[0]),
    ensures
        description_check(told_of(iso, lengths, blocks, packing, time, volumes)) is Ok,
{
    entries_are_retold(iso, lengths, layout, blocks, packing, time, volumes);
    omissions_are_told(iso, lengths, layout, blocks);
    told_settings(iso, lengths, blocks, packing, time, volumes);
    let state = places_of(iso, lengths).state;
    let origins = told_origins(iso, state);
    let again = told_of(iso, lengths, blocks, packing, time, volumes);
    assert(description_check(iso) is Ok && is_tree(iso)) by {
        plain_image_has(iso, lengths, layout, blocks);
    }
    assert(settings_check(iso) is Ok && metadata_check(iso) is Ok);
    assert(forall|i: int| 0 <= i < iso.files.len() ==> (#[trigger] iso.files[i]) is Path) by {
        reveal(is_plain_image);
    }
    assert(again.entries[0].path == root_path()) by {
        assert(retells_entry(iso, again, origins[0], 0));
    }
    if volumes.len() > 0 {
        told_joliet_passes(iso, again, origins, volumes[0]);
    }
    told_head_passes(iso, again);
    told_paths_differ(iso, again, origins);
    told_files_pass(iso, again, origins);
    told_omissions_pass(iso, again, origins);
    assert(first_failure(entry_checks(again), 0, again.entries.len() as int) is Ok) by {
        let entries = entry_checks(again);
        first_failure_ok(entries, 0, again.entries.len() as int);
        assert forall|i: int| 0 <= i < again.entries.len() implies (#[trigger] entries(i)) is Ok by {
            told_entry_passes(iso, lengths, layout, blocks, packing, time, volumes, i);
        }
    }
    checks_add_up(again);
}

} // verus!
