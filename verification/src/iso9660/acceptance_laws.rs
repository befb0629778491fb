//! Which descriptions of a filesystem are accepted.
use vstd::prelude::*;

use crate::iso9660::description::{
    EntryModel, EntryXaModel, GapItem, IsoModel, ItemModel, MetadataLayoutItem, MetadataPathTable,
    PathTableCopies,
};
use crate::iso9660::paths::path_check;
use crate::iso9660::record::xa_bytes;
use crate::iso9660::tree::{is_file, is_referenced};
use crate::iso9660::validate::{
    asset_checks, asset_paths, description_check, duplicate_checks, entry_check, entry_checks,
    extent_check, file_item_check, file_item_checks, framing_check, gap_check, is_known,
    joliet_check, metadata_check, metadata_item_checks, omission_check, omission_checks,
    place_check, placement_check, placement_checks, reference_entry_check, settings_check, xa_check,
};
use crate::manifest::{
    EntrySectorSubheader, GapKind, IsoMetadataSubheader, XaAttributeFlag, XaAttributes,
    XaLengthEncoding,
};
use crate::model::first_failure_ok;
use crate::text::parent_of;
use crate::xa::XaSubheader;

verus! {

/// The bits of XA attributes: the forms 1 and 2 of Mode 2, interleaving, audio, and a
/// directory.
pub proof fn bits_of_attributes(attributes: XaAttributes)
    ensures
        attributes.has(XaAttributeFlag::Mode2Form1) <==> attributes.0 / 2048 % 2 == 1,
        attributes.has(XaAttributeFlag::Mode2Form2) <==> attributes.0 / 4096 % 2 == 1,
        attributes.has(XaAttributeFlag::Interleaved) <==> attributes.0 / 8192 % 2 == 1,
        attributes.has(XaAttributeFlag::Cdda) <==> attributes.0 / 16384 % 2 == 1,
        attributes.has(XaAttributeFlag::Directory) <==> attributes.0 / 32768 % 2 == 1,
{
    let bits = attributes.0;
    assert((bits & 0x0800 != 0 <==> bits / 2048 % 2 == 1) && (bits & 0x1000 != 0 <==> bits / 4096
        % 2 == 1) && (bits & 0x2000 != 0 <==> bits / 8192 % 2 == 1) && (bits & 0x4000 != 0 <==> bits
        / 16384 % 2 == 1) && (bits & 0x8000 != 0 <==> bits / 32768 % 2 == 1)) by (bit_vector);
}

/// A submode does not say that its sector has the second form.
pub open spec fn says_form1(subheader: XaSubheader) -> bool {
    subheader.submode.0 / 32 % 2 == 0
}

proof fn form_is_a_bit(subheader: XaSubheader)
    ensures
        crate::iso9660::validate::is_form1(subheader) <==> says_form1(subheader),
{
    crate::raw_cd::sector_bytes_laws::bits_of_submode(subheader.submode);
}

/// Settings are accepted where the version of the file structure is left out or zero, there
/// are one to three primary descriptors, and one supplementary volume at most.
pub proof fn settings_are_accepted(iso: IsoModel)
    ensures
        settings_check(iso) is Ok <==> {
            &&& iso.primary_volume.file_structure_version matches Some(version) ==> version == 0
            &&& forall|i: int|
                0 <= i < iso.supplementary_volumes.len() ==> (
                (#[trigger] iso.supplementary_volumes[i]).descriptor.file_structure_version matches Some(
                    version,
                ) ==> version == 0)
            &&& 1 <= iso.primary_volume_copies <= 3
            &&& iso.supplementary_volumes.len() <= 1
        },
{
}

/// A metadata area is given for an image with a Joliet volume alone. It places each of the
/// four path tables once, the directories of a tree at most once, and gaps of some Mode 1 or
/// XA sectors; such an image has no second path tables and no padding behind its tables.
pub proof fn metadata_area_is_accepted(iso: IsoModel)
    ensures
        iso.supplementary_volumes.len() == 0 ==> (metadata_check(iso) is Ok
            <==> iso.metadata_layout.len() == 0),
        iso.supplementary_volumes.len() > 0 ==> (metadata_check(iso) is Ok <==> {
            let items = iso.metadata_layout;
            &&& iso.path_table_copies == PathTableCopies::Single
            &&& iso.path_table_padding == 0
            &&& forall|i: int, j: int|
                0 <= i < j < items.len() && !(items[j] is Gap) ==> #[trigger] items[i]
                    != #[trigger] items[j]
            &&& forall|i: int|
                0 <= i < items.len() ==> (#[trigger] items[i] matches MetadataLayoutItem::Gap {
                    gap,
                    kind,
                } ==> gap > 0 && (kind == GapKind::Mode1 || kind == GapKind::Xa))
            &&& items.contains(MetadataLayoutItem::PathTable(MetadataPathTable::PrimaryLittle))
            &&& items.contains(MetadataLayoutItem::PathTable(MetadataPathTable::PrimaryBig))
            &&& items.contains(MetadataLayoutItem::PathTable(MetadataPathTable::JolietLittle))
            &&& items.contains(MetadataLayoutItem::PathTable(MetadataPathTable::JolietBig))
        }),
{
    let items = iso.metadata_layout;
    let checks = metadata_item_checks(items);
    first_failure_ok(checks, 0, items.len() as int);
    if forall|i: int| 0 <= i < items.len() ==> (#[trigger] checks(i)) is Ok {
        assert forall|i: int, j: int|
            0 <= i < j < items.len() && !(items[j] is Gap) implies #[trigger] items[i]
            != #[trigger] items[j] by {
            assert(checks(j) is Ok);
        }
        assert forall|i: int| 0 <= i < items.len() implies (
        #[trigger] items[i] matches MetadataLayoutItem::Gap { gap, kind } ==> gap > 0 && (kind
            == GapKind::Mode1 || kind == GapKind::Xa)) by {
            assert(checks(i) is Ok);
        }
    }
    if (forall|i: int, j: int|
        0 <= i < j < items.len() && !(items[j] is Gap) ==> #[trigger] items[i]
            != #[trigger] items[j]) && (forall|i: int|
        0 <= i < items.len() ==> (#[trigger] items[i] matches MetadataLayoutItem::Gap { gap, kind }
            ==> gap > 0 && (kind == GapKind::Mode1 || kind == GapKind::Xa))) {
        assert forall|i: int| 0 <= i < items.len() implies (#[trigger] checks(i)) is Ok by {
            assert(items[i] == items[i]);
        }
    }
}

/// Framing subheaders are accepted where they frame something: that of the metadata where
/// it is canonical, that of the path tables where they are data, and neither says form 2. The
/// first entry is the root.
pub proof fn framing_is_accepted(iso: IsoModel)
    ensures
        framing_check(iso) is Ok <==> {
            &&& iso.metadata_framing_subheader matches Some(subheader) ==> iso.metadata_subheader
                == IsoMetadataSubheader::Canonical && says_form1(subheader)
            &&& iso.path_table_framing_subheader matches Some(subheader)
                ==> iso.path_table_subheader == EntrySectorSubheader::Data && says_form1(subheader)
            &&& iso.entries.len() > 0
            &&& iso.entries[0].path == seq!['.']
        },
{
    if let Some(subheader) = iso.metadata_framing_subheader {
        form_is_a_bit(subheader);
    }
    if let Some(subheader) = iso.path_table_framing_subheader {
        form_is_a_bit(subheader);
    }
}

/// Some entry has a path.
pub open spec fn has_entry(entries: Seq<EntryModel>, path: Seq<char>) -> bool {
    exists|i: int| 0 <= i < entries.len() && (#[trigger] entries[i]).path == path
}

/// A gap is accepted where it has sectors, does not carry on the gap before it, says of the
/// codes of form 2 only where it is of that form, comes last where it is of XA or raw zero
/// sectors, and has a subheader exactly where it is of form 1, which does not say form 2.
pub proof fn gap_is_accepted(files: Seq<ItemModel>, index: int, gap: GapItem)
    requires
        0 <= index < files.len(),
        files[index] == (ItemModel::Gap { gap }),
    ensures
        gap_check(files, index, gap) is Ok <==> {
            &&& gap.sectors > 0
            &&& index > 0 ==> (files[index - 1] matches ItemModel::Gap { gap: previous } ==> !(
            previous.kind == gap.kind && previous.subheader == gap.subheader && previous.form2_edc
                == gap.form2_edc))
            &&& gap.form2_edc is Some ==> gap.kind == GapKind::Form2
            &&& gap.kind == GapKind::Xa || gap.kind == GapKind::RawZero ==> index == files.len() - 1
            &&& gap.kind == GapKind::Form1 ==> gap.subheader is Some && says_form1(
                gap.subheader->Some_0,
            )
            &&& gap.kind != GapKind::Form1 ==> gap.subheader is None
        },
{
    if let Some(subheader) = gap.subheader {
        form_is_a_bit(subheader);
    }
}

/// A file of the file area is accepted where it names an entry other than the root that has
/// no fixed extent, and was not named before.
pub proof fn file_is_accepted(iso: IsoModel, index: int, path: Seq<char>)
    requires
        0 <= index < iso.files.len(),
        iso.files[index] == (ItemModel::Path { path }),
    ensures
        file_item_check(iso, index) is Ok <==> {
            &&& path != seq!['.']
            &&& has_entry(iso.entries, path)
            &&& forall|i: int|
                0 <= i < iso.entries.len() && (#[trigger] iso.entries[i]).path == path
                    ==> iso.entries[i].extent is None
            &&& forall|j: int|
                0 <= j < index ==> #[trigger] iso.files[j] != (ItemModel::Path { path })
        },
{
    assert(is_known(iso.entries, path) <==> has_entry(iso.entries, path)) by {
        if has_entry(iso.entries, path) {
            let i = choose|i: int|
                0 <= i < iso.entries.len() && (#[trigger] iso.entries[i]).path == path;
            assert(iso.entries[i].path == path);
        }
        if is_known(iso.entries, path) {
            let i = choose|i: int|
                0 <= i < iso.entries.len() && i < iso.entries.len() && (
                #[trigger] iso.entries[i]).path == path;
            assert(iso.entries[i].path == path);
        }
    }
    if is_referenced(iso.entries, path) {
        let i = choose|i: int|
            0 <= i < iso.entries.len() && (#[trigger] iso.entries[i]).path == path
                && iso.entries[i].extent is Some;
        assert(iso.entries[i].path == path);
    }
}

/// The fixed extent of an entry is accepted where its length is given with it, and it is that
/// of audio, of interleaved or form 2 sectors, or unbacked; an unbacked one is not audio,
/// has some length, and is a file's. Audio has a fixed extent. Only directories have slack, and
/// only files padding.
pub proof fn extent_is_accepted(entry: EntryModel, file: bool)
    ensures
        extent_check(entry, file) is Ok <==> {
            let attributes: int = match entry.xa {
                Some(xa) => match xa.attributes {
                    Some(attributes) => attributes.0 as int,
                    None => 0,
                },
                None => 0,
            };
            let audio = attributes / 16384 % 2 == 1;
            let form2 = attributes / 8192 % 2 == 1 || attributes / 4096 % 2 == 1;
            &&& entry.extent is Some <==> entry.length is Some
            &&& audio ==> entry.extent is Some
            &&& entry.unbacked ==> file && entry.extent is Some && entry.length->Some_0 > 0
                && !audio
            &&& entry.extent is Some ==> audio || form2 || entry.unbacked
            &&& file ==> entry.directory_slack is None
            &&& !file ==> entry.allocation_padding_hex is None
        },
{
    if let Some(xa) = entry.xa {
        if let Some(attributes) = xa.attributes {
            bits_of_attributes(attributes);
        }
    }
}

/// An entry has XA assets of both forms.
pub open spec fn mixes_forms(xa: Option<EntryXaModel>) -> bool {
    xa matches Some(xa) && xa.form1 is Some
}

/// The policy and the path of an entry are accepted where its sectors are its own if they are
/// not canonical, it is no file framed as data until its last sector, and its path passes and
/// lies in a directory that is an entry.
pub proof fn place_is_accepted(iso: IsoModel, index: int)
    requires
        0 <= index < iso.entries.len(),
    ensures
        place_check(iso, index) is Ok <==> {
            let entry = iso.entries[index];
            let file = is_file(iso, entry.path);
            &&& entry.sector_subheader != EntrySectorSubheader::Canonical ==> entry.extent is None
                && !mixes_forms(entry.xa)
            &&& entry.sector_subheader == EntrySectorSubheader::DataUntilFinal ==> !file
            &&& index > 0 ==> {
                &&& path_check(entry.path, file, iso.identifier_policy) is Ok
                &&& has_entry(iso.entries, parent_of(entry.path))
                &&& !is_file(iso, parent_of(entry.path))
            }
        },
{
    let parent = parent_of(iso.entries[index].path);
    assert(is_known(iso.entries, parent) <==> has_entry(iso.entries, parent)) by {
        if has_entry(iso.entries, parent) {
            let i = choose|i: int|
                0 <= i < iso.entries.len() && (#[trigger] iso.entries[i]).path == parent;
            assert(iso.entries[i].path == parent);
        }
    }
}

/// XA data of an entry is accepted where a directory has no assets, the three assets come
/// together, a framing subheader frames the data of a directory and does not say form 2, and
/// what is given of lengths, gaps and forms belongs to a file with assets, or of forms to one
/// with a fixed extent. Padding is not given for what has assets or a fixed extent.
pub proof fn xa_data_is_accepted(entry: EntryModel, file: bool)
    ensures
        entry.xa is None ==> (xa_check(entry, file) is Ok <==> entry.allocation_padding_hex is None
            || entry.extent is None),
        entry.xa matches Some(xa) ==> (xa_check(entry, file) is Ok <==> {
            let attributes: int = match xa.attributes {
                Some(attributes) => attributes.0 as int,
                None => 0,
            };
            let form2 = attributes / 8192 % 2 == 1 || attributes / 4096 % 2 == 1;
            let assets = xa.form1 is Some;
            &&& xa.form2 is Some <==> assets
            &&& xa.index is Some <==> assets
            &&& assets ==> file
            &&& xa.framing_subheader matches Some(subheader) ==> !file && says_form1(subheader) && (
            entry.sector_subheader == EntrySectorSubheader::Data || entry.sector_subheader
                == EntrySectorSubheader::EndOfFileData || entry.sector_subheader
                == EntrySectorSubheader::DataUntilFinal)
            &&& entry.allocation_padding_hex is Some ==> entry.extent is None && !assets
            &&& entry.unbacked ==> !assets && !form2
            &&& xa.logical_length matches Some(length) ==> assets && length > 0
            &&& xa.length_encoding == XaLengthEncoding::Mode2_2336 ==> assets && xa.logical_length
                is None
            &&& xa.gap_index is Some ==> assets
            &&& form2 ==> file && (assets || entry.extent is Some)
        }),
{
    if let Some(xa) = entry.xa {
        if let Some(attributes) = xa.attributes {
            bits_of_attributes(attributes);
        }
        if let Some(subheader) = xa.framing_subheader {
            form_is_a_bit(subheader);
        }
    }
}

/// A directory that an entry only refers to is accepted where it is neither the root nor a
/// file, has no length, no extent, no slack, no framing of its own and nothing in it.
pub proof fn directory_reference_is_accepted(iso: IsoModel, index: int)
    requires
        0 <= index < iso.entries.len(),
    ensures
        reference_entry_check(iso, index) is Ok <==> (iso.entries[index].directory_reference matches Some(
            reference,
        ) ==> {
            let entry = iso.entries[index];
            &&& index > 0
            &&& !is_file(iso, entry.path)
            &&& reference.length == 0
            &&& entry.extent is None
            &&& entry.length is None
            &&& entry.directory_slack is None
            &&& entry.sector_subheader == EntrySectorSubheader::Canonical
            &&& forall|i: int|
                0 <= i < iso.entries.len() && (#[trigger] iso.entries[i]).path != entry.path
                    ==> parent_of(iso.entries[i].path) != entry.path
        }),
{
}

/// Where the record of a file carries no XA data though others do, the volume has such data,
/// and the file is named once.
pub proof fn omission_is_accepted(iso: IsoModel, index: int)
    requires
        0 <= index < iso.xa_system_use_omissions.len(),
    ensures
        omission_check(iso, index) is Ok <==> {
            let path = iso.xa_system_use_omissions[index];
            &&& iso.xa_system_use
            &&& is_file(iso, path)
            &&& forall|j: int| 0 <= j < index ==> #[trigger] iso.xa_system_use_omissions[j] != path
        },
{
    let path = iso.xa_system_use_omissions[index];
    let before = iso.xa_system_use_omissions.take(index);
    if before.contains(path) {
        let j = choose|j: int| 0 <= j < before.len() && before[j] == path;
        assert(iso.xa_system_use_omissions[j] == path);
    }
    if exists|j: int| 0 <= j < index && #[trigger] iso.xa_system_use_omissions[j] == path {
        let j = choose|j: int| 0 <= j < index && #[trigger] iso.xa_system_use_omissions[j] == path;
        assert(before[j] == path);
    }
}

/// An asset of an XA extent in the file area is accepted where it has a path, which no entry
/// has, no asset before it, and none of an extent before.
pub proof fn extent_assets_are_accepted(iso: IsoModel, index: int)
    requires
        0 <= index < iso.files.len(),
        iso.files[index] is XaExtent,
    ensures
        file_item_check(iso, index) is Ok <==> {
            let paths = asset_paths(iso.files[index]->XaExtent_assets);
            forall|k: int|
                0 <= k < paths.len() ==> {
                    &&& (#[trigger] paths[k]).len() > 0
                    &&& !has_entry(iso.entries, paths[k])
                    &&& forall|l: int| 0 <= l < k ==> #[trigger] paths[l] != paths[k]
                    &&& forall|j: int|
                        0 <= j < index ==> (#[trigger] iso.files[j] matches ItemModel::XaExtent {
                            assets,
                        } ==> !asset_paths(assets).contains(paths[k]))
                }
        },
{
    let paths = asset_paths(iso.files[index]->XaExtent_assets);
    let checks = asset_checks(iso, index, paths);
    first_failure_ok(checks, 0, paths.len() as int);
    assert forall|k: int| 0 <= k < paths.len() implies ((#[trigger] checks(k)) is Ok <==> {
        &&& paths[k].len() > 0
        &&& !has_entry(iso.entries, paths[k])
        &&& forall|l: int| 0 <= l < k ==> #[trigger] paths[l] != paths[k]
        &&& forall|j: int|
            0 <= j < index ==> (#[trigger] iso.files[j] matches ItemModel::XaExtent { assets }
                ==> !asset_paths(assets).contains(paths[k]))
    }) by {
        let path = paths[k];
        let before = paths.take(k);
        assert(is_known(iso.entries, path) <==> has_entry(iso.entries, path)) by {
            if has_entry(iso.entries, path) {
                let i = choose|i: int|
                    0 <= i < iso.entries.len() && (#[trigger] iso.entries[i]).path == path;
                assert(iso.entries[i].path == path);
            }
        }
        assert(before.contains(path) <==> exists|l: int|
            0 <= l < k && #[trigger] paths[l] == path) by {
            if before.contains(path) {
                let l = choose|l: int| 0 <= l < before.len() && before[l] == path;
                assert(paths[l] == path);
            }
            if exists|l: int| 0 <= l < k && #[trigger] paths[l] == path {
                let l = choose|l: int| 0 <= l < k && #[trigger] paths[l] == path;
                assert(before[l] == path);
            }
        }
    }
    if forall|k: int| 0 <= k < paths.len() ==> (#[trigger] checks(k)) is Ok {
        assert forall|k: int| 0 <= k < paths.len() implies {
            &&& (#[trigger] paths[k]).len() > 0
            &&& !has_entry(iso.entries, paths[k])
            &&& forall|l: int| 0 <= l < k ==> #[trigger] paths[l] != paths[k]
            &&& forall|j: int|
                0 <= j < index ==> (#[trigger] iso.files[j] matches ItemModel::XaExtent { assets }
                    ==> !asset_paths(assets).contains(paths[k]))
        } by {
            assert(checks(k) is Ok);
        }
    }
}

/// A description is accepted where its settings, its metadata area and its framing are, no
/// two entries have one path, and every item of the file area, every omission, every place of
/// a directory, the Joliet volume and every entry is.
pub proof fn description_is_accepted_by_its_parts(iso: IsoModel)
    ensures
        description_check(iso) is Ok <==> {
            &&& settings_check(iso) is Ok
            &&& metadata_check(iso) is Ok
            &&& framing_check(iso) is Ok
            &&& forall|i: int, j: int|
                0 <= i < j < iso.entries.len() ==> (#[trigger] iso.entries[i]).path != (
                #[trigger] iso.entries[j]).path
            &&& forall|i: int| 0 <= i < iso.files.len() ==> #[trigger] file_item_check(iso, i) is Ok
            &&& forall|i: int|
                0 <= i < iso.xa_system_use_omissions.len() ==> #[trigger] omission_check(
                    iso,
                    i,
                ) is Ok
            &&& forall|i: int| 0 <= i < iso.files.len() ==> #[trigger] placement_check(iso, i) is Ok
            &&& joliet_check(iso) is Ok
            &&& forall|i: int| 0 <= i < iso.entries.len() ==> #[trigger] entry_check(iso, i) is Ok
        },
{
    let duplicates = duplicate_checks(iso.entries);
    let items = file_item_checks(iso);
    let omissions = omission_checks(iso);
    let placements = placement_checks(iso);
    let entries = entry_checks(iso);
    let count = iso.entries.len() as int;
    first_failure_ok(duplicates, 0, count);
    first_failure_ok(items, 0, iso.files.len() as int);
    first_failure_ok(omissions, 0, iso.xa_system_use_omissions.len() as int);
    first_failure_ok(placements, 0, iso.files.len() as int);
    first_failure_ok(entries, 0, count);
    assert((forall|i: int| 0 <= i < count ==> (#[trigger] duplicates(i)) is Ok) <==> forall|
        i: int,
        j: int,
    |
        0 <= i < j < iso.entries.len() ==> (#[trigger] iso.entries[i]).path != (
        #[trigger] iso.entries[j]).path) by {
        if forall|i: int| 0 <= i < count ==> (#[trigger] duplicates(i)) is Ok {
            assert forall|i: int, j: int| 0 <= i < j < iso.entries.len() implies (
            #[trigger] iso.entries[i]).path != (#[trigger] iso.entries[j]).path by {
                assert(duplicates(j) is Ok);
            }
        }
        if forall|i: int, j: int|
            0 <= i < j < iso.entries.len() ==> (#[trigger] iso.entries[i]).path != (
            #[trigger] iso.entries[j]).path {
            assert forall|i: int| 0 <= i < count implies (#[trigger] duplicates(i)) is Ok by {
                assert(iso.entries[i].path == iso.entries[i].path);
            }
        }
    }
    assert((forall|i: int| 0 <= i < iso.files.len() ==> (#[trigger] items(i)) is Ok) <==> forall|
        i: int,
    | 0 <= i < iso.files.len() ==> #[trigger] file_item_check(iso, i) is Ok) by {
        if forall|i: int| 0 <= i < iso.files.len() ==> (#[trigger] items(i)) is Ok {
            assert forall|i: int| 0 <= i < iso.files.len() implies #[trigger] file_item_check(
                iso,
                i,
            ) is Ok by {
                assert(items(i) is Ok);
            }
        }
    }
    assert((forall|i: int|
        0 <= i < iso.xa_system_use_omissions.len() ==> (#[trigger] omissions(i)) is Ok) <==> forall|
        i: int,
    |
        0 <= i < iso.xa_system_use_omissions.len() ==> #[trigger] omission_check(iso, i) is Ok) by {
        if forall|i: int|
            0 <= i < iso.xa_system_use_omissions.len() ==> (#[trigger] omissions(i)) is Ok {
            assert forall|i: int| 0 <= i < iso.xa_system_use_omissions.len() implies
                #[trigger] omission_check(iso, i) is Ok by {
                assert(omissions(i) is Ok);
            }
        }
    }
    assert((forall|i: int| 0 <= i < iso.files.len() ==> (#[trigger] placements(i)) is Ok)
        <==> forall|i: int|
        0 <= i < iso.files.len() ==> #[trigger] placement_check(iso, i) is Ok) by {
        if forall|i: int| 0 <= i < iso.files.len() ==> (#[trigger] placements(i)) is Ok {
            assert forall|i: int| 0 <= i < iso.files.len() implies #[trigger] placement_check(
                iso,
                i,
            ) is Ok by {
                assert(placements(i) is Ok);
            }
        }
    }
    assert((forall|i: int| 0 <= i < count ==> (#[trigger] entries(i)) is Ok) <==> forall|i: int|
        0 <= i < iso.entries.len() ==> #[trigger] entry_check(iso, i) is Ok) by {
        if forall|i: int| 0 <= i < count ==> (#[trigger] entries(i)) is Ok {
            assert forall|i: int| 0 <= i < iso.entries.len() implies #[trigger] entry_check(
                iso,
                i,
            ) is Ok by {
                assert(entries(i) is Ok);
            }
        }
    }
}

/// An entry is accepted where its reference to a directory, its extent, its XA data, and its
/// place are, and its XA data can be written where its record carries some.
pub proof fn entry_is_accepted_by_its_parts(iso: IsoModel, index: int)
    requires
        0 <= index < iso.entries.len(),
    ensures
        entry_check(iso, index) is Ok <==> {
            let entry = iso.entries[index];
            let file = is_file(iso, entry.path);
            &&& reference_entry_check(iso, index) is Ok
            &&& extent_check(entry, file) is Ok
            &&& iso.xa_system_use && !iso.xa_system_use_omissions.contains(entry.path) ==> xa_bytes(
                entry.path,
                entry.xa,
                !file,
            ) is Ok
            &&& xa_check(entry, file) is Ok
            &&& place_check(iso, index) is Ok
        },
{
}

} // verus!
