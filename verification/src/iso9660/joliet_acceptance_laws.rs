//! Which paths and entries of a Joliet tree are accepted, and which places of directories.
use vstd::prelude::*;

use crate::hexcode::is_hex;
use crate::iso9660::acceptance_laws::has_entry;
use crate::iso9660::description::{IsoModel, ItemModel, JolietModel, MetadataLayoutItem};
use crate::iso9660::packing_laws::wide_characters;
use crate::iso9660::paths::{
    is_joliet_path, is_plain_component, is_relative, joliet_component_checks, joliet_path_check,
};
use crate::iso9660::record::xa_bytes;
use crate::iso9660::tree::is_file;
use crate::iso9660::validate::{
    file_item_check, find_joliet_from, is_joliet_directory, is_known, joliet_check,
    joliet_entry_check, joliet_entry_checks, joliet_parent_check, joliet_settings_check,
    placement_check,
};
use crate::manifest::{MetadataVolume, XaLengthEncoding};
use crate::model::{first_failure, first_failure_ok};
use crate::text::{components, last_index_of_unique, parent_of};

verus! {

/// A name of the Joliet tree is accepted where it has one to sixty-four characters, none of
/// which takes more than two bytes, and is neither one period alone nor two.
pub proof fn joliet_name_is_accepted(name: Seq<char>)
    requires
        forall|i: int| 0 <= i < name.len() ==> #[trigger] name[i] != '/',
    ensures
        joliet_path_check(name) is Ok <==> 1 <= name.len() <= 64 && name != seq!['.'] && name
            != seq!['.', '.'] && forall|i: int|
            0 <= i < name.len() ==> (#[trigger] name[i] as int) < 65536,
{
    last_index_of_unique(name, '/', -1);
    assert(components(name) == seq![name]);
    wide_characters(name);
    reveal_with_fuel(first_failure, 2);
    let checks = joliet_component_checks(components(name));
    if name.len() > 0 {
        assert(name.last() != '/' && name[0] != '/');
    }
    assert(components(name)[0] == name);
    assert(is_joliet_path(name) <==> is_relative(name) && is_plain_component(name)) by {
        if is_joliet_path(name) {
            assert(is_plain_component(components(name)[0]));
        }
    }
    assert(checks(0) == crate::iso9660::paths::joliet_component_check(name));
}

/// A path of the Joliet tree is accepted where the directory that it lies in and its name
/// are. It may not begin or end with a slash.
pub proof fn joliet_path_is_accepted_by_its_parts(directory: Seq<char>, name: Seq<char>)
    requires
        directory.len() > 0,
        directory[directory.len() - 1] != '/',
        name.len() > 0,
        forall|i: int| 0 <= i < name.len() ==> #[trigger] name[i] != '/',
    ensures
        joliet_path_check(directory + seq!['/'] + name) is Ok <==> joliet_path_check(
            directory,
        ) is Ok && joliet_path_check(name) is Ok,
        joliet_path_check(name + seq!['/']) is Err,
        joliet_path_check(seq!['/'] + name) is Err,
        joliet_path_check(Seq::empty()) is Err,
{
    let path = directory + seq!['/'] + name;
    let at = directory.len() as int;
    assert forall|i: int| at < i < path.len() implies path[i] != '/' by {
        assert(path[i] == name[i - at - 1]);
    }
    last_index_of_unique(path, '/', at);
    last_index_of_unique(name, '/', -1);
    assert(components(name) == seq![name]);
    assert(path.subrange(0, at) =~= directory);
    assert(path.subrange(at + 1, path.len() as int) =~= name);
    let above = components(directory);
    let parts = components(path);
    assert(parts == above.push(name));
    assert(path.last() == name[name.len() - 1]);
    assert(path[0] == directory[0]);
    assert(name.last() != '/' && name[0] != '/');
    assert(is_relative(path) == is_relative(directory) && is_relative(name));
    assert((forall|i: int| 0 <= i < parts.len() ==> is_plain_component(#[trigger] parts[i])) <==> (
    forall|i: int| 0 <= i < above.len() ==> is_plain_component(#[trigger] above[i]))
        && is_plain_component(name)) by {
        if forall|i: int| 0 <= i < parts.len() ==> is_plain_component(#[trigger] parts[i]) {
            assert forall|i: int| 0 <= i < above.len() implies is_plain_component(
                #[trigger] above[i],
            ) by {
                assert(parts[i] == above[i]);
            }
            assert(parts[above.len() as int] == name);
        }
    }
    assert(is_joliet_path(name) <==> is_plain_component(name)) by {
        assert(components(name)[0] == name);
    }
    let checks = joliet_component_checks(parts);
    let others = joliet_component_checks(above);
    let own = joliet_component_checks(components(name));
    first_failure_ok(checks, 0, parts.len() as int);
    first_failure_ok(others, 0, above.len() as int);
    first_failure_ok(own, 0, 1);
    assert(own(0) == checks(above.len() as int)) by {
        assert(components(name)[0] == name);
        assert(parts[above.len() as int] == name);
    }
    assert forall|i: int| 0 <= i < above.len() implies #[trigger] checks(i) == others(i) by {
        assert(parts[i] == above[i]);
    }
    if (forall|i: int| 0 <= i < above.len() ==> (#[trigger] others(i)) is Ok) && own(0) is Ok {
        assert forall|i: int| 0 <= i < parts.len() implies (#[trigger] checks(i)) is Ok by {
            if i < above.len() {
                assert(others(i) is Ok);
            }
        }
    }
    if forall|i: int| 0 <= i < parts.len() ==> (#[trigger] checks(i)) is Ok {
        assert forall|i: int| 0 <= i < above.len() implies (#[trigger] others(i)) is Ok by {
            assert(checks(i) is Ok);
        }
        assert(checks(above.len() as int) is Ok);
    }
    assert((name + seq!['/']).last() == '/');
    assert((seq!['/'] + name)[0] == '/');
}

/// The settings of a Joliet volume are accepted where its escape sequence is left to its
/// level, given odd bytes are three, a raw set identifier stands in place of a text and has
/// 128 bytes, and its first entry is the root, a directory.
pub proof fn joliet_settings_are_accepted(volume: JolietModel)
    ensures
        joliet_settings_check(volume) is Ok <==> {
            &&& volume.descriptor.escape_sequence is None
            &&& volume.file_identifier_odd_bytes_hex matches Some(text) ==> is_hex(text)
                && text.len() == 6
            &&& volume.volume_set_identifier_raw_hex matches Some(text) ==> is_hex(text)
                && text.len() == 256 && volume.descriptor.volume_set_identifier.len() == 0
            &&& volume.entries.len() > 0
            &&& volume.entries[0].path == seq!['.']
            &&& volume.entries[0].source is None
        },
{
}

/// An entry of the Joliet tree is accepted where no entry before it has its path, its path
/// passes and lies in a directory of the tree unless it is the first, its source is a file of
/// the primary tree, only a file leaves out its version, and its XA data is that of a record,
/// where the records of the tree carry such data.
pub proof fn joliet_entry_is_accepted(iso: IsoModel, volume: JolietModel, index: int)
    requires
        0 <= index < volume.entries.len(),
    ensures
        joliet_entry_check(iso, volume, index) is Ok <==> {
            let entry = volume.entries[index];
            &&& forall|j: int|
                0 <= j < index ==> (#[trigger] volume.entries[j]).path != entry.path
            &&& index > 0 ==> joliet_path_check(entry.path) is Ok && joliet_parent_check(
                volume.entries,
                entry.path,
            ) is Ok
            &&& entry.source matches Some(source) ==> is_file(iso, source)
            &&& entry.omit_version ==> entry.source is Some
            &&& volume.xa_system_use ==> xa_bytes(
                entry.path,
                entry.xa,
                entry.source is None,
            ) is Ok
            &&& !volume.xa_system_use ==> entry.xa is None
            &&& entry.xa matches Some(xa) ==> xa.form1 is None && xa.form2 is None && xa.index
                is None && xa.gap_index is None && xa.logical_length is None && xa.length_encoding
                == XaLengthEncoding::Logical2048 && xa.framing_subheader is None
        },
{
}

/// The parent of a Joliet entry is accepted where it is the first entry with its path, and a
/// directory.
pub proof fn joliet_parent_is_a_directory(volume: JolietModel, path: Seq<char>, at: int)
    requires
        0 <= at < volume.entries.len(),
        volume.entries[at].path == parent_of(path),
        forall|j: int| 0 <= j < at ==> (#[trigger] volume.entries[j]).path != parent_of(path),
    ensures
        joliet_parent_check(volume.entries, path) is Ok <==> joliet_path_check(path) is Ok
            && volume.entries[at].source is None,
{
    first_is_found(volume, parent_of(path), at, 0);
}

proof fn first_is_found(volume: JolietModel, path: Seq<char>, at: int, index: int)
    requires
        0 <= index <= at < volume.entries.len(),
        volume.entries[at].path == path,
        forall|j: int| 0 <= j < at ==> (#[trigger] volume.entries[j]).path != path,
    ensures
        find_joliet_from(volume.entries, path, index) == at,
    decreases at - index,
{
    if index < at {
        assert(volume.entries[index].path != path);
        first_is_found(volume, path, at, index + 1);
    }
}

/// The Joliet volume of a description is accepted where its settings and all its entries are.
pub proof fn joliet_volume_is_accepted_by_its_parts(iso: IsoModel)
    ensures
        iso.supplementary_volumes.len() == 0 ==> joliet_check(iso) is Ok,
        iso.supplementary_volumes.len() > 0 ==> (joliet_check(iso) is Ok <==> joliet_settings_check(
            iso.supplementary_volumes[0],
        ) is Ok && forall|i: int|
            0 <= i < iso.supplementary_volumes[0].entries.len() ==> #[trigger] joliet_entry_check(
                iso,
                iso.supplementary_volumes[0],
                i,
            ) is Ok),
{
    if iso.supplementary_volumes.len() > 0 {
        let volume = iso.supplementary_volumes[0];
        let checks = joliet_entry_checks(iso, volume);
        first_failure_ok(checks, 0, volume.entries.len() as int);
        if forall|i: int| 0 <= i < volume.entries.len() ==> (#[trigger] checks(i)) is Ok {
            assert forall|i: int| 0 <= i < volume.entries.len() implies
                #[trigger] joliet_entry_check(iso, volume, i) is Ok by {
                assert(checks(i) is Ok);
            }
        }
    }
}

/// The place that the file area gives to a directory of the primary tree is accepted where
/// the directory is an entry, no file, not only referred to, not placed with its group nor
/// before, and not the root unless there is a Joliet tree.
pub proof fn place_of_directory_is_accepted(iso: IsoModel, index: int, path: Seq<char>)
    requires
        0 <= index < iso.files.len(),
        iso.files[index] == (ItemModel::Directory { volume: MetadataVolume::Primary, path }),
    ensures
        file_item_check(iso, index) is Ok && placement_check(iso, index) is Ok <==> {
            &&& has_entry(iso.entries, path)
            &&& !is_file(iso, path)
            &&& forall|i: int|
                0 <= i < iso.entries.len() && (#[trigger] iso.entries[i]).path == path
                    ==> iso.entries[i].directory_reference is None
            &&& !iso.metadata_layout.contains(
                MetadataLayoutItem::Directories(MetadataVolume::Primary),
            )
            &&& path == seq!['.'] ==> iso.supplementary_volumes.len() > 0
            &&& forall|j: int|
                0 <= j < index ==> #[trigger] iso.files[j] != (ItemModel::Directory {
                    volume: MetadataVolume::Primary,
                    path,
                })
        },
{
    assert(is_known(iso.entries, path) <==> has_entry(iso.entries, path)) by {
        if has_entry(iso.entries, path) {
            let i = choose|i: int|
                0 <= i < iso.entries.len() && (#[trigger] iso.entries[i]).path == path;
            assert(iso.entries[i].path == path);
        }
    }
}

/// The place that the file area gives to a directory of the Joliet tree is accepted where the
/// directory is an entry without a source, and not placed with its group nor before.
pub proof fn place_of_joliet_directory_is_accepted(iso: IsoModel, index: int, path: Seq<char>)
    requires
        0 <= index < iso.files.len(),
        iso.files[index] == (ItemModel::Directory { volume: MetadataVolume::Joliet, path }),
    ensures
        file_item_check(iso, index) is Ok && placement_check(iso, index) is Ok <==> {
            &&& iso.supplementary_volumes.len() > 0
            &&& is_joliet_directory(iso.supplementary_volumes[0].entries, path)
            &&& !iso.metadata_layout.contains(
                MetadataLayoutItem::Directories(MetadataVolume::Joliet),
            )
            &&& forall|j: int|
                0 <= j < index ==> #[trigger] iso.files[j] != (ItemModel::Directory {
                    volume: MetadataVolume::Joliet,
                    path,
                })
        },
{
    if iso.supplementary_volumes.len() > 0 {
        let entries = iso.supplementary_volumes[0].entries;
        if is_joliet_directory(entries, path) {
            let i = choose|i: int|
                0 <= i < entries.len() && (#[trigger] entries[i]).path == path && entries[i].source
                    is None;
            assert(entries[i].path == path);
        }
    }
}

} // verus!
