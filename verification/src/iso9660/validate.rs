//! What a filesystem description must satisfy before it can be laid out.
use vstd::prelude::*;

use crate::error::{failure, failure_of, Error, ErrorKind, Failure};
use crate::hexcode::{decode, hex_bytes, is_hex};
use crate::iso9660::description::{
    AssetsModel, Entry, EntryModel, EntryXa, EntryXaModel, FileLayoutItem, GapItem, Iso9660,
    IsoModel, ItemModel, JolietEntry, JolietEntryModel, JolietModel, JolietVolume,
    MetadataLayoutItem, MetadataPathTable, PathTableCopies, XaExtentAssets,
};
use crate::iso9660::paths::{
    joliet_path_check, path_check, validate_joliet_path, validate_path,
};
use crate::iso9660::record::{
    entry_xa_is_cdda, is_cdda, serialize_directory_record_system_use,
    serialize_xa_system_use_parts, system_use_bytes, xa_bytes,
};
use crate::iso9660::descriptor::ok;
use crate::iso9660::tree::{
    contains_text, has_reference, is_file, is_file_path, is_omitted, is_referenced,
};
use crate::manifest::{
    EntrySectorSubheader, GapKind, IsoMetadataSubheader, MetadataVolume, XaAttributeFlag,
    XaLengthEncoding,
};
use crate::model::{accepts, both, first_failure, opt_view, views};
use crate::text::{is_root, parent_of, parent_path, root_path, same_text};
use crate::xa::{XaSubheader, XaSubmodeFlag};

verus! {

/// A failure that concerns a path of one of the two trees.
pub open spec fn failure_in(kind: ErrorKind, volume: MetadataVolume, path: Seq<char>) -> Failure {
    Failure {
        kind,
        subject: path,
        number: if volume == MetadataVolume::Primary {
            0
        } else {
            1
        },
        cause: None,
    }
}

fn error_in(kind: ErrorKind, volume: MetadataVolume, path: &str) -> (error: Error)
    ensures
        error@ == failure_in(kind, volume, path@),
{
    Error {
        kind,
        subject: path.to_owned(),
        number: if volume == MetadataVolume::Primary {
            0
        } else {
            1
        },
        cause: None,
    }
}

/// A condition that must hold.
pub open spec fn holds(condition: bool, otherwise: Failure) -> Result<(), Failure> {
    if condition {
        Ok(())
    } else {
        Err(otherwise)
    }
}

/// A subheader leaves its sector in form 1.
pub open spec fn is_form1(subheader: XaSubheader) -> bool {
    !subheader.submode.has(XaSubmodeFlag::Form2)
}

fn stays_form1(subheader: XaSubheader) -> (form1: bool)
    ensures
        form1 == is_form1(subheader),
{
    !subheader.submode.contains(XaSubmodeFlag::Form2)
}

/// The structure version is the standard one or zero.
pub open spec fn version_fits(version: Option<u8>) -> bool {
    version is None || version == Some(0u8)
}

/// What is wrong with the settings that stand on their own.
pub open spec fn settings_check(iso: IsoModel) -> Result<(), Failure> {
    if !version_fits(iso.primary_volume.file_structure_version) || exists|i: int|
        0 <= i < iso.supplementary_volumes.len() && !version_fits(
            (#[trigger] iso.supplementary_volumes[i]).descriptor.file_structure_version,
        ) {
        Err(failure(ErrorKind::SettingFileStructure))
    } else if !(1 <= iso.primary_volume_copies <= 3) {
        Err(failure(ErrorKind::SettingCopies))
    } else if iso.supplementary_volumes.len() > 1 {
        Err(failure(ErrorKind::SettingSupplementary))
    } else {
        Ok(())
    }
}

fn versions_fit(iso: &Iso9660) -> (fit: bool)
    ensures
        fit <==> version_fits(iso@.primary_volume.file_structure_version) && forall|i: int|
            0 <= i < iso@.supplementary_volumes.len() ==> version_fits(
                (#[trigger] iso@.supplementary_volumes[i]).descriptor.file_structure_version,
            ),
{
    match iso.primary_volume.file_structure_version {
        Some(version) => {
            if version != 0 {
                return false;
            }
        },
        None => {},
    }
    let ghost model = iso@.supplementary_volumes;
    let mut i: usize = 0;
    while i < iso.supplementary_volumes.len()
        invariant
            i <= iso.supplementary_volumes.len(),
            model == views(iso.supplementary_volumes@),
            version_fits(iso@.primary_volume.file_structure_version),
            forall|j: int|
                0 <= j < i ==> version_fits((#[trigger] model[j]).descriptor.file_structure_version),
        decreases iso.supplementary_volumes.len() - i,
    {
        assert(model[i as int] == iso.supplementary_volumes@[i as int]@);
        match iso.supplementary_volumes[i].descriptor.file_structure_version {
            Some(version) => {
                if version != 0 {
                    assert(!version_fits(model[i as int].descriptor.file_structure_version));
                    return false;
                }
            },
            None => {},
        }
        i = i + 1;
    }
    true
}

fn check_settings(iso: &Iso9660) -> (result: Result<(), Error>)
    ensures
        accepts(result, settings_check(iso@)),
{
    if !versions_fit(iso) {
        return Err(Error::new(ErrorKind::SettingFileStructure));
    }
    if iso.primary_volume_copies < 1 || iso.primary_volume_copies > 3 {
        return Err(Error::new(ErrorKind::SettingCopies));
    }
    if iso.supplementary_volumes.len() > 1 {
        return Err(Error::new(ErrorKind::SettingSupplementary));
    }
    Ok(())
}

/// An item stands before `index`.
pub open spec fn stands_before(items: Seq<MetadataLayoutItem>, index: int, item: MetadataLayoutItem) -> bool {
    exists|j: int| 0 <= j < index && j < items.len() && #[trigger] items[j] == item
}

fn find_before(items: &Vec<MetadataLayoutItem>, index: usize, item: MetadataLayoutItem) -> (found: bool)
    requires
        index <= items.len(),
    ensures
        found == stands_before(items@, index as int, item),
{
    let mut j: usize = 0;
    while j < index
        invariant
            j <= index <= items.len(),
            forall|k: int| 0 <= k < j ==> #[trigger] items@[k] != item,
        decreases index - j,
    {
        if items[j] == item {
            return true;
        }
        j = j + 1;
    }
    false
}

/// What is wrong with one item of the metadata area.
pub open spec fn metadata_item_check(items: Seq<MetadataLayoutItem>, index: int) -> Result<(), Failure> {
    match items[index] {
        MetadataLayoutItem::PathTable(_) => holds(
            !stands_before(items, index, items[index]),
            failure(ErrorKind::MetadataTableDuplicate),
        ),
        MetadataLayoutItem::Directories(_) => holds(
            !stands_before(items, index, items[index]),
            failure(ErrorKind::MetadataDirectoriesDuplicate),
        ),
        MetadataLayoutItem::Gap { gap, kind } => holds(
            gap > 0 && (kind == GapKind::Mode1 || kind == GapKind::Xa),
            failure(ErrorKind::MetadataGap),
        ),
    }
}

/// The checks of the items of the metadata area.
pub open spec fn metadata_item_checks(items: Seq<MetadataLayoutItem>) -> spec_fn(int) -> Result<
    (),
    Failure,
> {
    |i: int| metadata_item_check(items, i)
}

/// Every path table has a place in the metadata area.
pub open spec fn places_all_tables(items: Seq<MetadataLayoutItem>) -> bool {
    &&& items.contains(MetadataLayoutItem::PathTable(MetadataPathTable::PrimaryLittle))
    &&& items.contains(MetadataLayoutItem::PathTable(MetadataPathTable::PrimaryBig))
    &&& items.contains(MetadataLayoutItem::PathTable(MetadataPathTable::JolietLittle))
    &&& items.contains(MetadataLayoutItem::PathTable(MetadataPathTable::JolietBig))
}

/// What is wrong with the metadata area.
pub open spec fn metadata_check(iso: IsoModel) -> Result<(), Failure> {
    let items = iso.metadata_layout;
    if iso.supplementary_volumes.len() == 0 {
        holds(items.len() == 0, failure(ErrorKind::MetadataWithoutJoliet))
    } else if iso.path_table_copies != PathTableCopies::Single || iso.path_table_padding != 0 {
        Err(failure(ErrorKind::MetadataTables))
    } else {
        both(
            first_failure(metadata_item_checks(items), 0, items.len() as int),
            holds(places_all_tables(items), failure(ErrorKind::MetadataIncomplete)),
        )
    }
}

fn contains_item(items: &Vec<MetadataLayoutItem>, item: MetadataLayoutItem) -> (found: bool)
    ensures
        found == items@.contains(item),
{
    find_before(items, items.len(), item)
}

fn check_metadata(iso: &Iso9660) -> (result: Result<(), Error>)
    ensures
        accepts(result, metadata_check(iso@)),
{
    let items: &Vec<MetadataLayoutItem> = &iso.metadata_layout;
    if iso.supplementary_volumes.len() == 0 {
        if items.len() != 0 {
            return Err(Error::new(ErrorKind::MetadataWithoutJoliet));
        }
        return Ok(());
    }
    if iso.path_table_copies != PathTableCopies::Single || iso.path_table_padding != 0 {
        return Err(Error::new(ErrorKind::MetadataTables));
    }
    let ghost checks = metadata_item_checks(items@);
    let mut i: usize = 0;
    while i < items.len()
        invariant
            i <= items.len(),
            checks == metadata_item_checks(items@),
            metadata_check(iso@) == both(
                first_failure(checks, i as int, items@.len() as int),
                holds(places_all_tables(items@), failure(ErrorKind::MetadataIncomplete)),
            ),
        decreases items.len() - i,
    {
        match items[i] {
            MetadataLayoutItem::PathTable(_) => {
                if find_before(items, i, items[i]) {
                    return Err(Error::new(ErrorKind::MetadataTableDuplicate));
                }
            },
            MetadataLayoutItem::Directories(_) => {
                if find_before(items, i, items[i]) {
                    return Err(Error::new(ErrorKind::MetadataDirectoriesDuplicate));
                }
            },
            MetadataLayoutItem::Gap { gap, kind } => {
                if gap == 0 || (kind != GapKind::Mode1 && kind != GapKind::Xa) {
                    return Err(Error::new(ErrorKind::MetadataGap));
                }
            },
        }
        i = i + 1;
    }
    if !(contains_item(items, MetadataLayoutItem::PathTable(MetadataPathTable::PrimaryLittle))
        && contains_item(items, MetadataLayoutItem::PathTable(MetadataPathTable::PrimaryBig))
        && contains_item(items, MetadataLayoutItem::PathTable(MetadataPathTable::JolietLittle))
        && contains_item(items, MetadataLayoutItem::PathTable(MetadataPathTable::JolietBig))) {
        return Err(Error::new(ErrorKind::MetadataIncomplete));
    }
    Ok(())
}

/// What is wrong with the subheader policies and the root entry.
pub open spec fn framing_check(iso: IsoModel) -> Result<(), Failure> {
    if iso.metadata_framing_subheader matches Some(subheader) && !(iso.metadata_subheader
        == IsoMetadataSubheader::Canonical && is_form1(subheader)) {
        Err(failure(ErrorKind::MetadataFraming))
    } else if iso.path_table_framing_subheader matches Some(subheader) && !(
    iso.path_table_subheader == EntrySectorSubheader::Data && is_form1(subheader)) {
        Err(failure(ErrorKind::PathTableFraming))
    } else if iso.entries.len() == 0 {
        Err(failure(ErrorKind::RootMissing))
    } else if iso.entries[0].path != root_path() {
        Err(failure(ErrorKind::RootNotFirst))
    } else {
        Ok(())
    }
}

fn check_framing(iso: &Iso9660) -> (result: Result<(), Error>)
    ensures
        accepts(result, framing_check(iso@)),
{
    match iso.metadata_framing_subheader {
        Some(subheader) => {
            if !(iso.metadata_subheader == IsoMetadataSubheader::Canonical && stays_form1(subheader)) {
                return Err(Error::new(ErrorKind::MetadataFraming));
            }
        },
        None => {},
    }
    match iso.path_table_framing_subheader {
        Some(subheader) => {
            if !(iso.path_table_subheader == EntrySectorSubheader::Data && stays_form1(subheader)) {
                return Err(Error::new(ErrorKind::PathTableFraming));
            }
        },
        None => {},
    }
    if iso.entries.len() == 0 {
        return Err(Error::new(ErrorKind::RootMissing));
    }
    assert(iso@.entries[0] == iso.entries@[0]@);
    if !is_root(iso.entries[0].path.as_str()) {
        return Err(Error::new(ErrorKind::RootNotFirst));
    }
    Ok(())
}

/// Some entry before `index` has the path.
pub open spec fn path_before(entries: Seq<EntryModel>, index: int, path: Seq<char>) -> bool {
    exists|j: int| 0 <= j < index && j < entries.len() && (#[trigger] entries[j]).path == path
}

/// Some entry has the path.
pub open spec fn is_known(entries: Seq<EntryModel>, path: Seq<char>) -> bool {
    path_before(entries, entries.len() as int, path)
}

/// Whether some entry before `index` has the path.
pub fn find_path_before(entries: &Vec<Entry>, index: usize, path: &str) -> (found: bool)
    requires
        index <= entries.len(),
    ensures
        found == path_before(views(entries@), index as int, path@),
{
    let ghost model = views(entries@);
    let mut j: usize = 0;
    while j < index
        invariant
            j <= index <= entries.len(),
            model == views(entries@),
            forall|k: int| 0 <= k < j ==> (#[trigger] model[k]).path != path@,
        decreases index - j,
    {
        assert(model[j as int] == entries@[j as int]@);
        if same_text(entries[j].path.as_str(), path) {
            return true;
        }
        j = j + 1;
    }
    false
}

/// The checks that no two entries have one path.
pub open spec fn duplicate_checks(entries: Seq<EntryModel>) -> spec_fn(int) -> Result<(), Failure> {
    |i: int|
        holds(
            !path_before(entries, i, entries[i].path),
            failure_of(ErrorKind::DuplicatePath, entries[i].path),
        )
}

fn check_duplicates(entries: &Vec<Entry>) -> (result: Result<(), Error>)
    ensures
        accepts(
            result,
            first_failure(duplicate_checks(views(entries@)), 0, entries@.len() as int),
        ),
{
    let ghost model = views(entries@);
    let ghost checks = duplicate_checks(model);
    let mut i: usize = 0;
    while i < entries.len()
        invariant
            i <= entries.len(),
            model == views(entries@),
            checks == duplicate_checks(model),
            first_failure(checks, 0, entries@.len() as int) == first_failure(
                checks,
                i as int,
                entries@.len() as int,
            ),
        decreases entries.len() - i,
    {
        assert(model[i as int] == entries@[i as int]@);
        if find_path_before(entries, i, entries[i].path.as_str()) {
            return Err(Error::of(ErrorKind::DuplicatePath, entries[i].path.as_str()));
        }
        i = i + 1;
    }
    Ok(())
}

/// Some Joliet entry before `index` has the path.
pub open spec fn joliet_path_before(entries: Seq<JolietEntryModel>, index: int, path: Seq<char>) -> bool {
    exists|j: int| 0 <= j < index && j < entries.len() && (#[trigger] entries[j]).path == path
}

fn find_joliet_path_before(entries: &Vec<JolietEntry>, index: usize, path: &str) -> (found: bool)
    requires
        index <= entries.len(),
    ensures
        found == joliet_path_before(views(entries@), index as int, path@),
{
    let ghost model = views(entries@);
    let mut j: usize = 0;
    while j < index
        invariant
            j <= index <= entries.len(),
            model == views(entries@),
            forall|k: int| 0 <= k < j ==> (#[trigger] model[k]).path != path@,
        decreases index - j,
    {
        assert(model[j as int] == entries@[j as int]@);
        if same_text(entries[j].path.as_str(), path) {
            return true;
        }
        j = j + 1;
    }
    false
}

/// The tree has an entry with the path.
pub open spec fn is_known_in(iso: IsoModel, volume: MetadataVolume, path: Seq<char>) -> bool {
    if volume == MetadataVolume::Primary {
        is_known(iso.entries, path)
    } else {
        iso.supplementary_volumes.len() > 0 && joliet_path_before(
            iso.supplementary_volumes[0].entries,
            iso.supplementary_volumes[0].entries.len() as int,
            path,
        )
    }
}

fn knows_path(iso: &Iso9660, volume: MetadataVolume, path: &str) -> (known: bool)
    ensures
        known == is_known_in(iso@, volume, path@),
{
    if volume == MetadataVolume::Primary {
        find_path_before(&iso.entries, iso.entries.len(), path)
    } else if iso.supplementary_volumes.len() > 0 {
        let joliet: &JolietVolume = &iso.supplementary_volumes[0];
        assert(iso@.supplementary_volumes[0] == joliet@);
        find_joliet_path_before(&joliet.entries, joliet.entries.len(), path)
    } else {
        false
    }
}

/// Some item before `index` places the directory.
pub open spec fn directory_before(
    files: Seq<ItemModel>,
    index: int,
    volume: MetadataVolume,
    path: Seq<char>,
) -> bool {
    exists|j: int|
        0 <= j < index && j < files.len() && #[trigger] files[j] == (ItemModel::Directory {
            volume,
            path,
        })
}

/// Whether some item before `index` places the directory.
pub fn find_directory_before(
    files: &Vec<FileLayoutItem>,
    index: usize,
    volume: MetadataVolume,
    path: &str,
) -> (found: bool)
    requires
        index <= files.len(),
    ensures
        found == directory_before(views(files@), index as int, volume, path@),
{
    let ghost model = views(files@);
    let mut j: usize = 0;
    while j < index
        invariant
            j <= index <= files.len(),
            model == views(files@),
            forall|k: int|
                0 <= k < j ==> #[trigger] model[k] != (ItemModel::Directory { volume, path: path@ }),
        decreases index - j,
    {
        assert(model[j as int] == files@[j as int]@);
        match &files[j] {
            FileLayoutItem::Directory { volume: other, path: candidate } => {
                if *other == volume && same_text(candidate.as_str(), path) {
                    return true;
                }
            },
            _ => {},
        }
        j = j + 1;
    }
    false
}

/// Some item before `index` is the file.
pub open spec fn file_before(files: Seq<ItemModel>, index: int, path: Seq<char>) -> bool {
    exists|j: int|
        0 <= j < index && j < files.len() && #[trigger] files[j] == (ItemModel::Path { path })
}

fn find_file_before(files: &Vec<FileLayoutItem>, index: usize, path: &str) -> (found: bool)
    requires
        index <= files.len(),
    ensures
        found == file_before(views(files@), index as int, path@),
{
    let ghost model = views(files@);
    let mut j: usize = 0;
    while j < index
        invariant
            j <= index <= files.len(),
            model == views(files@),
            forall|k: int| 0 <= k < j ==> #[trigger] model[k] != (ItemModel::Path { path: path@ }),
        decreases index - j,
    {
        assert(model[j as int] == files@[j as int]@);
        match &files[j] {
            FileLayoutItem::Path { path: candidate } => {
                if same_text(candidate.as_str(), path) {
                    return true;
                }
            },
            _ => {},
        }
        j = j + 1;
    }
    false
}

/// The paths of the assets of an XA extent, in order.
pub open spec fn asset_paths(assets: AssetsModel) -> Seq<Seq<char>> {
    seq![assets.form1, assets.form2, assets.index] + (match assets.gap_index {
        Some(path) => seq![path],
        None => Seq::empty(),
    })
}

/// Some extent before `index` has an asset with the path.
pub open spec fn asset_before(files: Seq<ItemModel>, index: int, path: Seq<char>) -> bool {
    exists|j: int|
        0 <= j < index && j < files.len() && (#[trigger] files[j] matches ItemModel::XaExtent {
            assets,
        } && asset_paths(assets).contains(path))
}

fn list_asset_paths<'a>(assets: &'a XaExtentAssets) -> (paths: Vec<&'a str>)
    ensures
        paths@.len() == asset_paths(assets@).len(),
        forall|i: int| 0 <= i < paths@.len() ==> (#[trigger] paths@[i])@ == asset_paths(assets@)[i],
{
    let mut paths: Vec<&'a str> = Vec::new();
    paths.push(assets.form1.as_str());
    paths.push(assets.form2.as_str());
    paths.push(assets.index.as_str());
    match &assets.gap_index {
        Some(path) => {
            paths.push(path.as_str());
        },
        None => {},
    }
    paths
}

fn has_asset(assets: &XaExtentAssets, path: &str) -> (found: bool)
    ensures
        found == asset_paths(assets@).contains(path@),
{
    let paths: Vec<&str> = list_asset_paths(assets);
    let ghost model = asset_paths(assets@);
    let mut i: usize = 0;
    while i < paths.len()
        invariant
            i <= paths.len(),
            model == asset_paths(assets@),
            paths@.len() == model.len(),
            forall|k: int| 0 <= k < paths@.len() ==> (#[trigger] paths@[k])@ == model[k],
            forall|k: int| 0 <= k < i ==> model[k] != path@,
        decreases paths.len() - i,
    {
        if same_text(paths[i], path) {
            assert(model[i as int] == path@);
            return true;
        }
        i = i + 1;
    }
    false
}

fn find_asset_before(files: &Vec<FileLayoutItem>, index: usize, path: &str) -> (found: bool)
    requires
        index <= files.len(),
    ensures
        found == asset_before(views(files@), index as int, path@),
{
    let ghost model = views(files@);
    let mut j: usize = 0;
    while j < index
        invariant
            j <= index <= files.len(),
            model == views(files@),
            forall|k: int|
                0 <= k < j ==> !(#[trigger] model[k] matches ItemModel::XaExtent { assets }
                    && asset_paths(assets).contains(path@)),
        decreases index - j,
    {
        assert(model[j as int] == files@[j as int]@);
        match &files[j] {
            FileLayoutItem::XaExtent { assets } => {
                if has_asset(assets, path) {
                    return true;
                }
            },
            _ => {},
        }
        j = j + 1;
    }
    false
}

/// What is wrong with one asset of an XA extent.
pub open spec fn asset_check(iso: IsoModel, index: int, paths: Seq<Seq<char>>, which: int) -> Result<
    (),
    Failure,
> {
    let path = paths[which];
    if path.len() == 0 {
        Err(failure(ErrorKind::AssetEmpty))
    } else if is_known(iso.entries, path) {
        Err(failure_of(ErrorKind::AssetCollides, path))
    } else if asset_before(iso.files, index, path) || paths.take(which).contains(path) {
        Err(failure_of(ErrorKind::AssetDuplicate, path))
    } else {
        Ok(())
    }
}

/// The checks of the assets of an XA extent.
pub open spec fn asset_checks(iso: IsoModel, index: int, paths: Seq<Seq<char>>) -> spec_fn(int) -> Result<
    (),
    Failure,
> {
    |k: int| asset_check(iso, index, paths, k)
}

fn check_assets(iso: &Iso9660, index: usize, assets: &XaExtentAssets) -> (result: Result<(), Error>)
    requires
        index < iso.files.len(),
    ensures
        accepts(
            result,
            first_failure(
                asset_checks(iso@, index as int, asset_paths(assets@)),
                0,
                asset_paths(assets@).len() as int,
            ),
        ),
{
    let paths: Vec<&str> = list_asset_paths(assets);
    let ghost model = asset_paths(assets@);
    let ghost checks = asset_checks(iso@, index as int, model);
    let mut k: usize = 0;
    while k < paths.len()
        invariant
            k <= paths.len(),
            index < iso.files.len(),
            model == asset_paths(assets@),
            paths@.len() == model.len(),
            forall|j: int| 0 <= j < paths@.len() ==> (#[trigger] paths@[j])@ == model[j],
            checks == asset_checks(iso@, index as int, model),
            first_failure(checks, 0, model.len() as int) == first_failure(
                checks,
                k as int,
                model.len() as int,
            ),
        decreases paths.len() - k,
    {
        let path: &str = paths[k];
        assert(path@ == model[k as int]);
        if path.is_empty() {
            return Err(Error::new(ErrorKind::AssetEmpty));
        }
        if find_path_before(&iso.entries, iso.entries.len(), path) {
            return Err(Error::of(ErrorKind::AssetCollides, path));
        }
        let mut repeated: bool = find_asset_before(&iso.files, index, path);
        let mut j: usize = 0;
        while j < k
            invariant
                j <= k < paths.len(),
                paths@.len() == model.len(),
                path@ == model[k as int],
                forall|m: int| 0 <= m < paths@.len() ==> (#[trigger] paths@[m])@ == model[m],
                repeated == (asset_before(iso@.files, index as int, path@) || model.take(
                    j as int,
                ).contains(path@)),
            decreases k - j,
        {
            let same: bool = same_text(paths[j], path);
            proof {
                let shorter = model.take(j as int);
                let longer = model.take(j + 1);
                assert(paths@[j as int]@ == model[j as int]);
                assert(longer =~= shorter.push(model[j as int]));
                if shorter.contains(path@) {
                    let w = choose|w: int| 0 <= w < shorter.len() && shorter[w] == path@;
                    assert(longer[w] == path@);
                }
                if same {
                    assert(longer[j as int] == path@);
                }
                if longer.contains(path@) && !same {
                    let w = choose|w: int| 0 <= w < longer.len() && longer[w] == path@;
                    assert(shorter[w] == path@);
                }
            }
            if same {
                repeated = true;
            }
            j = j + 1;
        }
        if repeated {
            return Err(Error::of(ErrorKind::AssetDuplicate, path));
        }
        k = k + 1;
    }
    Ok(())
}

/// Two gaps are of one kind, so that they could be one.
pub open spec fn same_gap_kind(left: GapItem, right: GapItem) -> bool {
    left.kind == right.kind && left.subheader == right.subheader && left.form2_edc
        == right.form2_edc
}

/// What is wrong with a gap.
pub open spec fn gap_check(files: Seq<ItemModel>, index: int, gap: GapItem) -> Result<(), Failure> {
    if gap.sectors == 0 {
        Err(failure(ErrorKind::GapEmpty))
    } else if index > 0 && (files[index - 1] matches ItemModel::Gap { gap: previous } && same_gap_kind(
        previous,
        gap,
    )) {
        Err(failure(ErrorKind::GapRedundant))
    } else if gap.form2_edc is Some && gap.kind != GapKind::Form2 {
        Err(failure(ErrorKind::GapForm2Edc))
    } else if (gap.kind == GapKind::Xa || gap.kind == GapKind::RawZero) && index + 1 != files.len() {
        Err(failure(ErrorKind::GapNotFinal))
    } else if gap.kind == GapKind::Form1 {
        match gap.subheader {
            None => Err(failure(ErrorKind::GapForm1Subheader)),
            Some(subheader) => holds(is_form1(subheader), failure(ErrorKind::GapForm1Form2)),
        }
    } else {
        holds(gap.subheader is None, failure(ErrorKind::GapSubheader))
    }
}

fn check_gap(files: &Vec<FileLayoutItem>, index: usize, gap: GapItem) -> (result: Result<(), Error>)
    requires
        index < files.len(),
    ensures
        accepts(result, gap_check(views(files@), index as int, gap)),
{
    let ghost model = views(files@);
    if gap.sectors == 0 {
        return Err(Error::new(ErrorKind::GapEmpty));
    }
    if index > 0 {
        assert(model[index - 1] == files@[index - 1]@);
        match &files[index - 1] {
            FileLayoutItem::Gap { gap: previous } => {
                if previous.kind == gap.kind && previous.subheader == gap.subheader
                    && previous.form2_edc == gap.form2_edc {
                    return Err(Error::new(ErrorKind::GapRedundant));
                }
            },
            _ => {},
        }
    }
    if gap.form2_edc.is_some() && gap.kind != GapKind::Form2 {
        return Err(Error::new(ErrorKind::GapForm2Edc));
    }
    if (gap.kind == GapKind::Xa || gap.kind == GapKind::RawZero) && index + 1 != files.len() {
        return Err(Error::new(ErrorKind::GapNotFinal));
    }
    if gap.kind == GapKind::Form1 {
        match gap.subheader {
            None => return Err(Error::new(ErrorKind::GapForm1Subheader)),
            Some(subheader) => {
                if !stays_form1(subheader) {
                    return Err(Error::new(ErrorKind::GapForm1Form2));
                }
            },
        }
    } else if gap.subheader.is_some() {
        return Err(Error::new(ErrorKind::GapSubheader));
    }
    Ok(())
}

/// What is wrong with one item of the file area.
pub open spec fn file_item_check(iso: IsoModel, index: int) -> Result<(), Failure> {
    match iso.files[index] {
        ItemModel::Path { path } => if path == root_path() {
            Err(failure(ErrorKind::RootIsFile))
        } else if !is_known(iso.entries, path) {
            Err(failure_of(ErrorKind::UnknownFile, path))
        } else if is_referenced(iso.entries, path) {
            Err(failure_of(ErrorKind::ReferenceInFiles, path))
        } else if file_before(iso.files, index, path) {
            Err(failure_of(ErrorKind::DuplicateFile, path))
        } else {
            Ok(())
        },
        ItemModel::Directory { volume, path } => if !is_known_in(iso, volume, path) {
            Err(failure_in(ErrorKind::UnknownDirectory, volume, path))
        } else if iso.metadata_layout.contains(MetadataLayoutItem::Directories(volume)) {
            Err(failure_in(ErrorKind::DirectoryGroup, volume, path))
        } else if path == root_path() && iso.supplementary_volumes.len() == 0 {
            Err(failure(ErrorKind::RootPlacement))
        } else if directory_before(iso.files, index, volume, path) {
            Err(failure_in(ErrorKind::DuplicateDirectory, volume, path))
        } else {
            Ok(())
        },
        ItemModel::XaExtent { assets } => first_failure(
            asset_checks(iso, index, asset_paths(assets)),
            0,
            asset_paths(assets).len() as int,
        ),
        ItemModel::Gap { gap } => gap_check(iso.files, index, gap),
    }
}

/// The checks of the items of the file area.
pub open spec fn file_item_checks(iso: IsoModel) -> spec_fn(int) -> Result<(), Failure> {
    |i: int| file_item_check(iso, i)
}

fn check_file_item(iso: &Iso9660, index: usize) -> (result: Result<(), Error>)
    requires
        index < iso.files.len(),
    ensures
        accepts(result, file_item_check(iso@, index as int)),
{
    assert(iso@.files[index as int] == iso.files@[index as int]@);
    match &iso.files[index] {
        FileLayoutItem::Path { path } => {
            let path: &str = path.as_str();
            if is_root(path) {
                return Err(Error::new(ErrorKind::RootIsFile));
            }
            if !find_path_before(&iso.entries, iso.entries.len(), path) {
                return Err(Error::of(ErrorKind::UnknownFile, path));
            }
            if has_reference(&iso.entries, path) {
                return Err(Error::of(ErrorKind::ReferenceInFiles, path));
            }
            if find_file_before(&iso.files, index, path) {
                return Err(Error::of(ErrorKind::DuplicateFile, path));
            }
            Ok(())
        },
        FileLayoutItem::Directory { volume, path } => {
            let path: &str = path.as_str();
            let volume: MetadataVolume = *volume;
            if !knows_path(iso, volume, path) {
                return Err(error_in(ErrorKind::UnknownDirectory, volume, path));
            }
            if contains_item(&iso.metadata_layout, MetadataLayoutItem::Directories(volume)) {
                return Err(error_in(ErrorKind::DirectoryGroup, volume, path));
            }
            if is_root(path) && iso.supplementary_volumes.len() == 0 {
                return Err(Error::new(ErrorKind::RootPlacement));
            }
            if find_directory_before(&iso.files, index, volume, path) {
                return Err(error_in(ErrorKind::DuplicateDirectory, volume, path));
            }
            Ok(())
        },
        FileLayoutItem::XaExtent { assets } => check_assets(iso, index, assets),
        FileLayoutItem::Gap { gap } => check_gap(&iso.files, index, *gap),
    }
}

/// What is wrong with one omission of XA data.
pub open spec fn omission_check(iso: IsoModel, index: int) -> Result<(), Failure> {
    let path = iso.xa_system_use_omissions[index];
    if !iso.xa_system_use {
        Err(failure(ErrorKind::OmissionWithoutXa))
    } else if iso.xa_system_use_omissions.take(index).contains(path) {
        Err(failure_of(ErrorKind::OmissionDuplicate, path))
    } else if !is_file(iso, path) {
        Err(failure_of(ErrorKind::OmissionNotFile, path))
    } else {
        Ok(())
    }
}

/// The checks of the omissions of XA data.
pub open spec fn omission_checks(iso: IsoModel) -> spec_fn(int) -> Result<(), Failure> {
    |i: int| omission_check(iso, i)
}

fn check_omission(iso: &Iso9660, index: usize) -> (result: Result<(), Error>)
    requires
        index < iso.xa_system_use_omissions.len(),
    ensures
        accepts(result, omission_check(iso@, index as int)),
{
    let ghost model = iso@.xa_system_use_omissions;
    let path: &str = iso.xa_system_use_omissions[index].as_str();
    assert(model[index as int] == path@);
    if !iso.xa_system_use {
        return Err(Error::new(ErrorKind::OmissionWithoutXa));
    }
    let mut j: usize = 0;
    while j < index
        invariant
            j <= index < iso.xa_system_use_omissions.len(),
            model == views(iso.xa_system_use_omissions@),
            model == iso@.xa_system_use_omissions,
            model[index as int] == path@,
            iso.xa_system_use,
            forall|k: int| 0 <= k < j ==> model[k] != path@,
        decreases index - j,
    {
        assert(model[j as int] == iso.xa_system_use_omissions@[j as int]@);
        if same_text(iso.xa_system_use_omissions[j].as_str(), path) {
            assert(model.take(index as int)[j as int] == path@);
            return Err(Error::of(ErrorKind::OmissionDuplicate, path));
        }
        j = j + 1;
    }
    assert(!model.take(index as int).contains(path@));
    if !is_file_path(iso, path) {
        return Err(Error::of(ErrorKind::OmissionNotFile, path));
    }
    Ok(())
}

/// Some entry with the path refers to a directory that is not in the image.
pub open spec fn is_directory_reference(entries: Seq<EntryModel>, path: Seq<char>) -> bool {
    exists|i: int|
        0 <= i < entries.len() && (#[trigger] entries[i]).path == path
            && entries[i].directory_reference is Some
}

fn has_directory_reference(entries: &Vec<Entry>, path: &str) -> (found: bool)
    ensures
        found == is_directory_reference(views(entries@), path@),
{
    let ghost model = views(entries@);
    let mut j: usize = 0;
    while j < entries.len()
        invariant
            j <= entries.len(),
            model == views(entries@),
            forall|k: int|
                0 <= k < j ==> !((#[trigger] model[k]).path == path@
                    && model[k].directory_reference is Some),
        decreases entries.len() - j,
    {
        assert(model[j as int] == entries@[j as int]@);
        if entries[j].directory_reference.is_some() && same_text(entries[j].path.as_str(), path) {
            return true;
        }
        j = j + 1;
    }
    false
}

/// Some Joliet entry with the path is a directory.
pub open spec fn is_joliet_directory(entries: Seq<JolietEntryModel>, path: Seq<char>) -> bool {
    exists|i: int|
        0 <= i < entries.len() && (#[trigger] entries[i]).path == path && entries[i].source is None
}

fn has_joliet_directory(entries: &Vec<JolietEntry>, path: &str) -> (found: bool)
    ensures
        found == is_joliet_directory(views(entries@), path@),
{
    let ghost model = views(entries@);
    let mut j: usize = 0;
    while j < entries.len()
        invariant
            j <= entries.len(),
            model == views(entries@),
            forall|k: int|
                0 <= k < j ==> !((#[trigger] model[k]).path == path@ && model[k].source is None),
        decreases entries.len() - j,
    {
        assert(model[j as int] == entries@[j as int]@);
        if entries[j].source.is_none() && same_text(entries[j].path.as_str(), path) {
            return true;
        }
        j = j + 1;
    }
    false
}

/// The path is that of a directory of the primary tree.
pub open spec fn is_primary_directory(iso: IsoModel, path: Seq<char>) -> bool {
    is_known(iso.entries, path) && !is_file(iso, path)
}

/// What is wrong with the place that an item gives to a directory.
pub open spec fn placement_check(iso: IsoModel, index: int) -> Result<(), Failure> {
    match iso.files[index] {
        ItemModel::Directory { volume: MetadataVolume::Primary, path } => if !is_primary_directory(
            iso,
            path,
        ) {
            Err(failure_in(ErrorKind::PlacementNamesFile, MetadataVolume::Primary, path))
        } else if is_directory_reference(iso.entries, path) {
            Err(failure_of(ErrorKind::PlacementOfReference, path))
        } else {
            Ok(())
        },
        ItemModel::Directory { volume: MetadataVolume::Joliet, path } => holds(
            iso.supplementary_volumes.len() > 0 && is_joliet_directory(
                iso.supplementary_volumes[0].entries,
                path,
            ),
            failure_in(ErrorKind::PlacementNamesFile, MetadataVolume::Joliet, path),
        ),
        _ => Ok(()),
    }
}

/// The checks of the places that the file area gives to directories.
pub open spec fn placement_checks(iso: IsoModel) -> spec_fn(int) -> Result<(), Failure> {
    |i: int| placement_check(iso, i)
}

fn check_placement(iso: &Iso9660, index: usize) -> (result: Result<(), Error>)
    requires
        index < iso.files.len(),
    ensures
        accepts(result, placement_check(iso@, index as int)),
{
    assert(iso@.files[index as int] == iso.files@[index as int]@);
    match &iso.files[index] {
        FileLayoutItem::Directory { volume, path } => {
            let path: &str = path.as_str();
            match volume {
                MetadataVolume::Primary => {
                    if !find_path_before(&iso.entries, iso.entries.len(), path) || is_file_path(
                        iso,
                        path,
                    ) {
                        return Err(error_in(ErrorKind::PlacementNamesFile, MetadataVolume::Primary, path));
                    }
                    if has_directory_reference(&iso.entries, path) {
                        return Err(Error::of(ErrorKind::PlacementOfReference, path));
                    }
                },
                MetadataVolume::Joliet => {
                    let mut found: bool = false;
                    if iso.supplementary_volumes.len() > 0 {
                        assert(iso@.supplementary_volumes[0] == iso.supplementary_volumes@[0]@);
                        found = has_joliet_directory(&iso.supplementary_volumes[0].entries, path);
                    }
                    if !found {
                        return Err(error_in(ErrorKind::PlacementNamesFile, MetadataVolume::Joliet, path));
                    }
                },
            }
            Ok(())
        },
        _ => Ok(()),
    }
}

/// The text is the digits of exactly `count` bytes.
pub open spec fn is_hex_of(text: Seq<char>, count: int) -> bool {
    is_hex(text) && hex_bytes(text).len() == count
}

fn holds_hex_of(text: &str, count: usize) -> (fits: bool)
    ensures
        fits == is_hex_of(text@, count as int),
{
    match decode(text, ErrorKind::IntegerConversion, text) {
        Ok(bytes) => bytes.len() == count,
        Err(_) => false,
    }
}

/// What is wrong with the settings of a Joliet volume.
pub open spec fn joliet_settings_check(volume: JolietModel) -> Result<(), Failure> {
    if volume.descriptor.escape_sequence is Some {
        Err(failure(ErrorKind::JolietEscape))
    } else if volume.file_identifier_odd_bytes_hex matches Some(text) && !is_hex_of(text, 3) {
        Err(failure(ErrorKind::JolietOddBytes))
    } else if volume.volume_set_identifier_raw_hex matches Some(text) && !(
    volume.descriptor.volume_set_identifier.len() == 0 && is_hex_of(text, 128)) {
        Err(failure(ErrorKind::JolietSetIdentifier))
    } else if volume.entries.len() == 0 {
        Err(failure(ErrorKind::JolietRootMissing))
    } else if !(volume.entries[0].path == root_path() && volume.entries[0].source is None) {
        Err(failure(ErrorKind::JolietRootNotFirst))
    } else {
        Ok(())
    }
}

fn check_joliet_settings(volume: &JolietVolume) -> (result: Result<(), Error>)
    ensures
        accepts(result, joliet_settings_check(volume@)),
{
    if volume.descriptor.escape_sequence.is_some() {
        return Err(Error::new(ErrorKind::JolietEscape));
    }
    match &volume.file_identifier_odd_bytes_hex {
        Some(text) => {
            if !holds_hex_of(text.as_str(), 3) {
                return Err(Error::new(ErrorKind::JolietOddBytes));
            }
        },
        None => {},
    }
    match &volume.volume_set_identifier_raw_hex {
        Some(text) => {
            if !volume.descriptor.volume_set_identifier.as_str().is_empty() || !holds_hex_of(
                text.as_str(),
                128,
            ) {
                return Err(Error::new(ErrorKind::JolietSetIdentifier));
            }
        },
        None => {},
    }
    if volume.entries.len() == 0 {
        return Err(Error::new(ErrorKind::JolietRootMissing));
    }
    assert(volume@.entries[0] == volume.entries@[0]@);
    if !is_root(volume.entries[0].path.as_str()) || volume.entries[0].source.is_some() {
        return Err(Error::new(ErrorKind::JolietRootNotFirst));
    }
    Ok(())
}

/// The index of the first Joliet entry with a path, from `index` on, or their number.
pub open spec fn find_joliet_from(entries: Seq<JolietEntryModel>, path: Seq<char>, index: int) -> int
    decreases entries.len() - index,
{
    if index < 0 || index >= entries.len() {
        entries.len() as int
    } else if entries[index].path == path {
        index
    } else {
        find_joliet_from(entries, path, index + 1)
    }
}

fn find_joliet(entries: &Vec<JolietEntry>, path: &str) -> (index: usize)
    ensures
        index == find_joliet_from(views(entries@), path@, 0),
        index <= entries.len(),
{
    let ghost model = views(entries@);
    let mut index: usize = 0;
    while index < entries.len()
        invariant
            index <= entries.len(),
            model == views(entries@),
            find_joliet_from(model, path@, 0) == find_joliet_from(model, path@, index as int),
        decreases entries.len() - index,
    {
        assert(model[index as int] == entries@[index as int]@);
        if same_text(entries[index].path.as_str(), path) {
            return index;
        }
        index = index + 1;
    }
    index
}

/// What is wrong with the directory that a Joliet entry lies in.
pub open spec fn joliet_parent_check(entries: Seq<JolietEntryModel>, path: Seq<char>) -> Result<
    (),
    Failure,
> {
    let parent = parent_of(path);
    let index = find_joliet_from(entries, parent, 0);
    both(
        joliet_path_check(path),
        if index >= entries.len() {
            Err(failure_of(ErrorKind::JolietParentMissing, parent))
        } else {
            holds(entries[index].source is None, failure_of(ErrorKind::JolietParentFile, parent))
        },
    )
}

fn check_joliet_parent(entries: &Vec<JolietEntry>, path: &str) -> (result: Result<(), Error>)
    ensures
        accepts(result, joliet_parent_check(views(entries@), path@)),
{
    match validate_joliet_path(path) {
        Ok(_) => {},
        Err(error) => return Err(error),
    }
    let parent: String = parent_path(path);
    let index: usize = find_joliet(entries, parent.as_str());
    if index >= entries.len() {
        return Err(Error::of(ErrorKind::JolietParentMissing, parent.as_str()));
    }
    assert(views(entries@)[index as int] == entries@[index as int]@);
    if entries[index].source.is_some() {
        return Err(Error::of(ErrorKind::JolietParentFile, parent.as_str()));
    }
    Ok(())
}

/// The XA data holds only what a directory record carries.
pub open spec fn only_record_fields(xa: EntryXaModel) -> bool {
    &&& xa.form1 is None
    &&& xa.form2 is None
    &&& xa.index is None
    &&& xa.gap_index is None
    &&& xa.logical_length is None
    &&& xa.length_encoding == XaLengthEncoding::Logical2048
    &&& xa.framing_subheader is None
}

/// What is wrong with the XA data of a Joliet entry.
pub open spec fn joliet_xa_check(volume: JolietModel, entry: JolietEntryModel) -> Result<(), Failure> {
    both(
        if volume.xa_system_use {
            ok(xa_bytes(entry.path, entry.xa, entry.source is None))
        } else {
            holds(entry.xa is None, failure_of(ErrorKind::JolietXa, entry.path))
        },
        match entry.xa {
            Some(xa) => holds(only_record_fields(xa), failure_of(ErrorKind::JolietXaFields, entry.path)),
            None => Ok(()),
        },
    )
}

fn check_joliet_xa(volume: &JolietVolume, entry: &JolietEntry) -> (result: Result<(), Error>)
    ensures
        accepts(result, joliet_xa_check(volume@, entry@)),
{
    let path: &str = entry.path.as_str();
    if volume.xa_system_use {
        match serialize_xa_system_use_parts(path, &entry.xa, entry.source.is_none()) {
            Ok(_) => {},
            Err(error) => return Err(error),
        }
    } else if entry.xa.is_some() {
        return Err(Error::of(ErrorKind::JolietXa, path));
    }
    match &entry.xa {
        Some(xa) => {
            if !(xa.form1.is_none() && xa.form2.is_none() && xa.index.is_none()
                && xa.gap_index.is_none() && xa.logical_length.is_none()
                && xa.length_encoding.is_default() && xa.framing_subheader.is_none()) {
                return Err(Error::of(ErrorKind::JolietXaFields, path));
            }
        },
        None => {},
    }
    Ok(())
}

/// What is wrong with one Joliet entry.
pub open spec fn joliet_entry_check(iso: IsoModel, volume: JolietModel, index: int) -> Result<
    (),
    Failure,
> {
    let entry = volume.entries[index];
    if joliet_path_before(volume.entries, index, entry.path) {
        Err(failure_of(ErrorKind::JolietDuplicate, entry.path))
    } else {
        both(
            if index != 0 {
                joliet_parent_check(volume.entries, entry.path)
            } else {
                Ok(())
            },
            if entry.source matches Some(source) && !is_file(iso, source) {
                Err(failure_of(ErrorKind::JolietSource, entry.source->0))
            } else if entry.omit_version && entry.source is None {
                Err(failure_of(ErrorKind::JolietOmitVersion, entry.path))
            } else {
                joliet_xa_check(volume, entry)
            },
        )
    }
}

/// The checks of the Joliet entries.
pub open spec fn joliet_entry_checks(iso: IsoModel, volume: JolietModel) -> spec_fn(int) -> Result<
    (),
    Failure,
> {
    |i: int| joliet_entry_check(iso, volume, i)
}

fn check_joliet_entry(iso: &Iso9660, volume: &JolietVolume, index: usize) -> (result: Result<(), Error>)
    requires
        index < volume.entries.len(),
    ensures
        accepts(result, joliet_entry_check(iso@, volume@, index as int)),
{
    let entry: &JolietEntry = &volume.entries[index];
    assert(volume@.entries[index as int] == entry@);
    let path: &str = entry.path.as_str();
    if find_joliet_path_before(&volume.entries, index, path) {
        return Err(Error::of(ErrorKind::JolietDuplicate, path));
    }
    if index != 0 {
        match check_joliet_parent(&volume.entries, path) {
            Ok(_) => {},
            Err(error) => return Err(error),
        }
    }
    match &entry.source {
        Some(source) => {
            if !is_file_path(iso, source.as_str()) {
                return Err(Error::of(ErrorKind::JolietSource, source.as_str()));
            }
        },
        None => {
            if entry.omit_version {
                return Err(Error::of(ErrorKind::JolietOmitVersion, path));
            }
        },
    }
    check_joliet_xa(volume, entry)
}

/// What is wrong with the Joliet volume, if there is one.
pub open spec fn joliet_check(iso: IsoModel) -> Result<(), Failure> {
    if iso.supplementary_volumes.len() == 0 {
        Ok(())
    } else {
        let volume = iso.supplementary_volumes[0];
        both(
            joliet_settings_check(volume),
            first_failure(joliet_entry_checks(iso, volume), 0, volume.entries.len() as int),
        )
    }
}

fn check_joliet(iso: &Iso9660) -> (result: Result<(), Error>)
    ensures
        accepts(result, joliet_check(iso@)),
{
    if iso.supplementary_volumes.len() == 0 {
        return Ok(());
    }
    let volume: &JolietVolume = &iso.supplementary_volumes[0];
    assert(iso@.supplementary_volumes[0] == volume@);
    match check_joliet_settings(volume) {
        Ok(_) => {},
        Err(error) => return Err(error),
    }
    let ghost checks = joliet_entry_checks(iso@, volume@);
    let ghost count = volume.entries@.len() as int;
    let mut i: usize = 0;
    while i < volume.entries.len()
        invariant
            i <= volume.entries.len(),
            count == volume.entries@.len(),
            checks == joliet_entry_checks(iso@, volume@),
            joliet_check(iso@) == first_failure(checks, i as int, count),
        decreases volume.entries.len() - i,
    {
        match check_joliet_entry(iso, volume, i) {
            Ok(_) => {},
            Err(error) => return Err(error),
        }
        i = i + 1;
    }
    Ok(())
}

/// Some other entry lies in the directory.
pub open spec fn has_child(entries: Seq<EntryModel>, path: Seq<char>) -> bool {
    exists|i: int|
        0 <= i < entries.len() && (#[trigger] entries[i]).path != path && parent_of(entries[i].path)
            == path
}

fn finds_child(entries: &Vec<Entry>, path: &str) -> (found: bool)
    ensures
        found == has_child(views(entries@), path@),
{
    let ghost model = views(entries@);
    let mut j: usize = 0;
    while j < entries.len()
        invariant
            j <= entries.len(),
            model == views(entries@),
            forall|k: int|
                0 <= k < j ==> !((#[trigger] model[k]).path != path@ && parent_of(model[k].path)
                    == path@),
        decreases entries.len() - j,
    {
        assert(model[j as int] == entries@[j as int]@);
        let candidate: &str = entries[j].path.as_str();
        if !same_text(candidate, path) && same_text(parent_path(candidate).as_str(), path) {
            return true;
        }
        j = j + 1;
    }
    false
}

/// What is wrong with a reference to a directory that is not in the image.
pub open spec fn reference_entry_check(iso: IsoModel, index: int) -> Result<(), Failure> {
    let entry = iso.entries[index];
    match entry.directory_reference {
        None => Ok(()),
        Some(reference) => if index == 0 || is_file(iso, entry.path) {
            Err(failure_of(ErrorKind::ReferenceNotDirectory, entry.path))
        } else if reference.length != 0 {
            Err(failure_of(ErrorKind::ReferenceLength, entry.path))
        } else if entry.extent is Some || entry.length is Some {
            Err(failure_of(ErrorKind::ReferenceCombined, entry.path))
        } else if !(entry.directory_slack is None && entry.sector_subheader
            == EntrySectorSubheader::Canonical) {
            Err(failure_of(ErrorKind::ReferenceData, entry.path))
        } else if has_child(iso.entries, entry.path) {
            Err(failure_of(ErrorKind::ReferenceChildren, entry.path))
        } else {
            Ok(())
        },
    }
}

fn check_reference_entry(iso: &Iso9660, index: usize, file: bool) -> (result: Result<(), Error>)
    requires
        index < iso.entries.len(),
        file == is_file(iso@, iso@.entries[index as int].path),
    ensures
        accepts(result, reference_entry_check(iso@, index as int)),
{
    let entry: &Entry = &iso.entries[index];
    assert(iso@.entries[index as int] == entry@);
    let path: &str = entry.path.as_str();
    match entry.directory_reference {
        None => {},
        Some(reference) => {
            if index == 0 || file {
                return Err(Error::of(ErrorKind::ReferenceNotDirectory, path));
            }
            if reference.length != 0 {
                return Err(Error::of(ErrorKind::ReferenceLength, path));
            }
            if entry.extent.is_some() || entry.length.is_some() {
                return Err(Error::of(ErrorKind::ReferenceCombined, path));
            }
            if !(entry.directory_slack.is_none() && entry.sector_subheader
                == EntrySectorSubheader::Canonical) {
                return Err(Error::of(ErrorKind::ReferenceData, path));
            }
            if finds_child(&iso.entries, path) {
                return Err(Error::of(ErrorKind::ReferenceChildren, path));
            }
        },
    }
    Ok(())
}

/// The attributes say that the entry's sectors are interleaved or of form 2.
pub open spec fn is_form2_xa(xa: Option<EntryXaModel>) -> bool {
    xa matches Some(xa) && xa.attributes matches Some(attributes) && (attributes.has(
        XaAttributeFlag::Interleaved,
    ) || attributes.has(XaAttributeFlag::Mode2Form2))
}

fn says_form2(xa: &Option<EntryXa>) -> (form2: bool)
    ensures
        form2 == is_form2_xa(opt_view(*xa)),
{
    match xa {
        Some(xa) => match xa.attributes {
            Some(attributes) => attributes.contains(XaAttributeFlag::Interleaved)
                || attributes.contains(XaAttributeFlag::Mode2Form2),
            None => false,
        },
        None => false,
    }
}

fn says_cdda(xa: &Option<EntryXa>) -> (cdda: bool)
    ensures
        cdda == is_cdda(opt_view(*xa)),
{
    match xa {
        Some(xa) => entry_xa_is_cdda(xa),
        None => false,
    }
}

/// What is wrong with the extent of an entry.
pub open spec fn extent_check(entry: EntryModel, file: bool) -> Result<(), Failure> {
    let cdda = is_cdda(entry.xa);
    let form2 = is_form2_xa(entry.xa);
    if entry.extent is Some != entry.length is Some {
        Err(failure_of(ErrorKind::ExtentIncomplete, entry.path))
    } else if cdda && entry.extent is None {
        Err(failure_of(ErrorKind::CddaExtent, entry.path))
    } else if entry.unbacked && !(entry.extent is Some && (entry.length matches Some(length) && length > 0)
        && !cdda) {
        Err(failure_of(ErrorKind::UnbackedReference, entry.path))
    } else if entry.extent is Some && !cdda && !form2 && !entry.unbacked {
        Err(failure_of(ErrorKind::ExtentKind, entry.path))
    } else if entry.unbacked && !file {
        Err(failure_of(ErrorKind::UnbackedNotFile, entry.path))
    } else if file && entry.directory_slack is Some {
        Err(failure_of(ErrorKind::SlackOfFile, entry.path))
    } else if !file && entry.allocation_padding_hex is Some {
        Err(failure_of(ErrorKind::PaddingOfDirectory, entry.path))
    } else {
        Ok(())
    }
}

fn check_extent(entry: &Entry, file: bool) -> (result: Result<(), Error>)
    ensures
        accepts(result, extent_check(entry@, file)),
{
    let path: &str = entry.path.as_str();
    let cdda: bool = says_cdda(&entry.xa);
    if entry.extent.is_some() != entry.length.is_some() {
        return Err(Error::of(ErrorKind::ExtentIncomplete, path));
    }
    if cdda && entry.extent.is_none() {
        return Err(Error::of(ErrorKind::CddaExtent, path));
    }
    if entry.unbacked {
        let nonempty: bool = match entry.length {
            Some(length) => length > 0,
            None => false,
        };
        if !(entry.extent.is_some() && nonempty && !cdda) {
            return Err(Error::of(ErrorKind::UnbackedReference, path));
        }
    }
    if entry.extent.is_some() && !cdda && !says_form2(&entry.xa) && !entry.unbacked {
        return Err(Error::of(ErrorKind::ExtentKind, path));
    }
    if entry.unbacked && !file {
        return Err(Error::of(ErrorKind::UnbackedNotFile, path));
    }
    if file && entry.directory_slack.is_some() {
        return Err(Error::of(ErrorKind::SlackOfFile, path));
    }
    if !file && entry.allocation_padding_hex.is_some() {
        return Err(Error::of(ErrorKind::PaddingOfDirectory, path));
    }
    Ok(())
}

/// The entry has assets that mix both forms.
pub open spec fn has_assets(xa: Option<EntryXaModel>) -> bool {
    xa matches Some(xa) && xa.form1 is Some
}

/// All three assets, or none of them.
pub open spec fn assets_complete(xa: EntryXaModel) -> bool {
    xa.form1 is Some == xa.form2 is Some && xa.form2 is Some == xa.index is Some
}

/// The policy frames the sectors of an entry as data.
pub open spec fn frames_data(policy: EntrySectorSubheader) -> bool {
    policy == EntrySectorSubheader::Data || policy == EntrySectorSubheader::EndOfFileData || policy
        == EntrySectorSubheader::DataUntilFinal
}

/// What is wrong with the XA data of an entry that has some.
pub open spec fn xa_fields_check(entry: EntryModel, xa: EntryXaModel, file: bool) -> Result<
    (),
    Failure,
> {
    let assets = xa.form1 is Some;
    if !file && !(xa.form1 is None && xa.form2 is None && xa.index is None) {
        Err(failure_of(ErrorKind::XaDirectoryAssets, entry.path))
    } else if !assets_complete(xa) {
        Err(failure_of(ErrorKind::XaAssetsIncomplete, entry.path))
    } else if xa.framing_subheader matches Some(subheader) && !(!file && frames_data(
        entry.sector_subheader,
    ) && is_form1(subheader)) {
        Err(failure_of(ErrorKind::XaFraming, entry.path))
    } else if entry.allocation_padding_hex is Some && (entry.extent is Some || assets) {
        Err(failure_of(ErrorKind::PaddingOfReference, entry.path))
    } else if entry.unbacked && (assets || is_form2_xa(Some(xa))) {
        Err(failure_of(ErrorKind::UnbackedXa, entry.path))
    } else if xa.logical_length matches Some(length) && !(file && assets && length > 0) {
        Err(failure_of(ErrorKind::XaLogicalLength, entry.path))
    } else if xa.length_encoding != XaLengthEncoding::Logical2048 && !(file && assets
        && xa.logical_length is None) {
        Err(failure_of(ErrorKind::XaLengthEncoding, entry.path))
    } else if xa.gap_index is Some && !assets {
        Err(failure_of(ErrorKind::XaGapIndex, entry.path))
    } else if is_form2_xa(Some(xa)) && !(file && (assets || entry.extent is Some)) {
        Err(failure_of(ErrorKind::XaAttributesAssets, entry.path))
    } else {
        Ok(())
    }
}

fn check_xa_fields(entry: &Entry, xa: &EntryXa, file: bool) -> (result: Result<(), Error>)
    requires
        opt_view(entry.xa) == Some(xa@),
    ensures
        accepts(result, xa_fields_check(entry@, xa@, file)),
{
    let path: &str = entry.path.as_str();
    let assets: bool = xa.form1.is_some();
    if !file && !(xa.form1.is_none() && xa.form2.is_none() && xa.index.is_none()) {
        return Err(Error::of(ErrorKind::XaDirectoryAssets, path));
    }
    if xa.form1.is_some() != xa.form2.is_some() || xa.form2.is_some() != xa.index.is_some() {
        return Err(Error::of(ErrorKind::XaAssetsIncomplete, path));
    }
    match xa.framing_subheader {
        Some(subheader) => {
            let data: bool = entry.sector_subheader == EntrySectorSubheader::Data
                || entry.sector_subheader == EntrySectorSubheader::EndOfFileData
                || entry.sector_subheader == EntrySectorSubheader::DataUntilFinal;
            if file || !data || !stays_form1(subheader) {
                return Err(Error::of(ErrorKind::XaFraming, path));
            }
        },
        None => {},
    }
    if entry.allocation_padding_hex.is_some() && (entry.extent.is_some() || assets) {
        return Err(Error::of(ErrorKind::PaddingOfReference, path));
    }
    let form2: bool = says_form2(&entry.xa);
    if entry.unbacked && (assets || form2) {
        return Err(Error::of(ErrorKind::UnbackedXa, path));
    }
    match xa.logical_length {
        Some(length) => {
            if !(file && assets && length > 0) {
                return Err(Error::of(ErrorKind::XaLogicalLength, path));
            }
        },
        None => {},
    }
    if !xa.length_encoding.is_default() && !(file && assets && xa.logical_length.is_none()) {
        return Err(Error::of(ErrorKind::XaLengthEncoding, path));
    }
    if xa.gap_index.is_some() && !assets {
        return Err(Error::of(ErrorKind::XaGapIndex, path));
    }
    if form2 && !(file && (assets || entry.extent.is_some())) {
        return Err(Error::of(ErrorKind::XaAttributesAssets, path));
    }
    Ok(())
}

/// What is wrong with the XA data of an entry.
pub open spec fn xa_check(entry: EntryModel, file: bool) -> Result<(), Failure> {
    match entry.xa {
        Some(xa) => xa_fields_check(entry, xa, file),
        None => holds(
            !(entry.allocation_padding_hex is Some && entry.extent is Some),
            failure_of(ErrorKind::PaddingOfReference, entry.path),
        ),
    }
}

fn check_xa(entry: &Entry, file: bool) -> (result: Result<(), Error>)
    ensures
        accepts(result, xa_check(entry@, file)),
{
    match &entry.xa {
        Some(xa) => check_xa_fields(entry, xa, file),
        None => {
            if entry.allocation_padding_hex.is_some() && entry.extent.is_some() {
                return Err(Error::of(ErrorKind::PaddingOfReference, entry.path.as_str()));
            }
            Ok(())
        },
    }
}

/// What is wrong with the subheader policy and the path of an entry.
pub open spec fn place_check(iso: IsoModel, index: int) -> Result<(), Failure> {
    let entry = iso.entries[index];
    let file = is_file(iso, entry.path);
    let parent = parent_of(entry.path);
    if entry.sector_subheader != EntrySectorSubheader::Canonical && (entry.extent is Some
        || has_assets(entry.xa)) {
        Err(failure_of(ErrorKind::SubheaderOfReference, entry.path))
    } else if entry.sector_subheader == EntrySectorSubheader::DataUntilFinal && file {
        Err(failure_of(ErrorKind::SubheaderOfFile, entry.path))
    } else if index == 0 {
        Ok(())
    } else {
        both(
            path_check(entry.path, file, iso.identifier_policy),
            holds(is_primary_directory(iso, parent), failure_of(ErrorKind::ParentMissing, parent)),
        )
    }
}

fn check_place(iso: &Iso9660, index: usize, file: bool) -> (result: Result<(), Error>)
    requires
        index < iso.entries.len(),
        file == is_file(iso@, iso@.entries[index as int].path),
    ensures
        accepts(result, place_check(iso@, index as int)),
{
    let entry: &Entry = &iso.entries[index];
    assert(iso@.entries[index as int] == entry@);
    let path: &str = entry.path.as_str();
    let assets: bool = match &entry.xa {
        Some(xa) => xa.form1.is_some(),
        None => false,
    };
    if entry.sector_subheader != EntrySectorSubheader::Canonical && (entry.extent.is_some()
        || assets) {
        return Err(Error::of(ErrorKind::SubheaderOfReference, path));
    }
    if entry.sector_subheader == EntrySectorSubheader::DataUntilFinal && file {
        return Err(Error::of(ErrorKind::SubheaderOfFile, path));
    }
    if index == 0 {
        return Ok(());
    }
    match validate_path(path, file, iso.identifier_policy) {
        Ok(_) => {},
        Err(error) => return Err(error),
    }
    let parent: String = parent_path(path);
    if !find_path_before(&iso.entries, iso.entries.len(), parent.as_str()) || is_file_path(
        iso,
        parent.as_str(),
    ) {
        return Err(Error::of(ErrorKind::ParentMissing, parent.as_str()));
    }
    Ok(())
}

/// What is wrong with one entry of the primary tree.
pub open spec fn entry_check(iso: IsoModel, index: int) -> Result<(), Failure> {
    let entry = iso.entries[index];
    let file = is_file(iso, entry.path);
    both(
        reference_entry_check(iso, index),
        both(
            extent_check(entry, file),
            both(
                ok(
                    system_use_bytes(
                        entry.path,
                        entry.xa,
                        !file,
                        iso.xa_system_use && !is_omitted(iso, entry.path),
                    ),
                ),
                both(xa_check(entry, file), place_check(iso, index)),
            ),
        ),
    )
}

/// The checks of the entries of the primary tree.
pub open spec fn entry_checks(iso: IsoModel) -> spec_fn(int) -> Result<(), Failure> {
    |i: int| entry_check(iso, i)
}

fn check_entry(iso: &Iso9660, index: usize) -> (result: Result<(), Error>)
    requires
        index < iso.entries.len(),
    ensures
        accepts(result, entry_check(iso@, index as int)),
{
    let entry: &Entry = &iso.entries[index];
    assert(iso@.entries[index as int] == entry@);
    let path: &str = entry.path.as_str();
    let file: bool = is_file_path(iso, path);
    match check_reference_entry(iso, index, file) {
        Ok(_) => {},
        Err(error) => return Err(error),
    }
    match check_extent(entry, file) {
        Ok(_) => {},
        Err(error) => return Err(error),
    }
    match serialize_directory_record_system_use(
        path,
        &entry.xa,
        !file,
        iso.xa_system_use && !contains_text(&iso.xa_system_use_omissions, path),
    ) {
        Ok(_) => {},
        Err(error) => return Err(error),
    }
    match check_xa(entry, file) {
        Ok(_) => {},
        Err(error) => return Err(error),
    }
    check_place(iso, index, file)
}

/// What is wrong with a filesystem description, in the order in which it is found.
pub open spec fn description_check(iso: IsoModel) -> Result<(), Failure> {
    both(
        settings_check(iso),
        both(
            metadata_check(iso),
            both(
                framing_check(iso),
                both(
                    first_failure(duplicate_checks(iso.entries), 0, iso.entries.len() as int),
                    both(
                        first_failure(file_item_checks(iso), 0, iso.files.len() as int),
                        both(
                            first_failure(
                                omission_checks(iso),
                                0,
                                iso.xa_system_use_omissions.len() as int,
                            ),
                            both(
                                first_failure(placement_checks(iso), 0, iso.files.len() as int),
                                both(
                                    joliet_check(iso),
                                    first_failure(
                                        entry_checks(iso),
                                        0,
                                        iso.entries.len() as int,
                                    ),
                                ),
                            ),
                        ),
                    ),
                ),
            ),
        ),
    )
}

fn check_file_items(iso: &Iso9660) -> (result: Result<(), Error>)
    ensures
        accepts(result, first_failure(file_item_checks(iso@), 0, iso.files@.len() as int)),
{
    let ghost checks = file_item_checks(iso@);
    let ghost count = iso.files@.len() as int;
    let mut i: usize = 0;
    while i < iso.files.len()
        invariant
            i <= iso.files.len(),
            count == iso.files@.len(),
            checks == file_item_checks(iso@),
            first_failure(checks, 0, count) == first_failure(checks, i as int, count),
        decreases iso.files.len() - i,
    {
        match check_file_item(iso, i) {
            Ok(_) => {},
            Err(error) => return Err(error),
        }
        i = i + 1;
    }
    Ok(())
}

fn check_omissions(iso: &Iso9660) -> (result: Result<(), Error>)
    ensures
        accepts(result, first_failure(omission_checks(iso@), 0, iso.xa_system_use_omissions@.len() as int)),
{
    let ghost checks = omission_checks(iso@);
    let ghost count = iso.xa_system_use_omissions@.len() as int;
    let mut i: usize = 0;
    while i < iso.xa_system_use_omissions.len()
        invariant
            i <= iso.xa_system_use_omissions.len(),
            count == iso.xa_system_use_omissions@.len(),
            checks == omission_checks(iso@),
            first_failure(checks, 0, count) == first_failure(checks, i as int, count),
        decreases iso.xa_system_use_omissions.len() - i,
    {
        match check_omission(iso, i) {
            Ok(_) => {},
            Err(error) => return Err(error),
        }
        i = i + 1;
    }
    Ok(())
}

fn check_placements(iso: &Iso9660) -> (result: Result<(), Error>)
    ensures
        accepts(result, first_failure(placement_checks(iso@), 0, iso.files@.len() as int)),
{
    let ghost checks = placement_checks(iso@);
    let ghost count = iso.files@.len() as int;
    let mut i: usize = 0;
    while i < iso.files.len()
        invariant
            i <= iso.files.len(),
            count == iso.files@.len(),
            checks == placement_checks(iso@),
            first_failure(checks, 0, count) == first_failure(checks, i as int, count),
        decreases iso.files.len() - i,
    {
        match check_placement(iso, i) {
            Ok(_) => {},
            Err(error) => return Err(error),
        }
        i = i + 1;
    }
    Ok(())
}

fn check_entries(iso: &Iso9660) -> (result: Result<(), Error>)
    ensures
        accepts(result, first_failure(entry_checks(iso@), 0, iso.entries@.len() as int)),
{
    let ghost checks = entry_checks(iso@);
    let ghost count = iso.entries@.len() as int;
    let mut i: usize = 0;
    while i < iso.entries.len()
        invariant
            i <= iso.entries.len(),
            count == iso.entries@.len(),
            checks == entry_checks(iso@),
            first_failure(checks, 0, count) == first_failure(checks, i as int, count),
        decreases iso.entries.len() - i,
    {
        match check_entry(iso, i) {
            Ok(_) => {},
            Err(error) => return Err(error),
        }
        i = i + 1;
    }
    Ok(())
}

/// Checks everything that a description must satisfy before it is laid out.
pub fn validate_entries(iso: &Iso9660) -> (result: Result<(), Error>)
    ensures
        accepts(result, description_check(iso@)),
        result is Ok ==> iso.entries.len() > 0,
        result is Ok && iso.supplementary_volumes.len() > 0
            ==> iso.supplementary_volumes[0].entries.len() > 0,
{
    match check_settings(iso) {
        Ok(_) => {},
        Err(error) => return Err(error),
    }
    match check_metadata(iso) {
        Ok(_) => {},
        Err(error) => return Err(error),
    }
    match check_framing(iso) {
        Ok(_) => {},
        Err(error) => return Err(error),
    }
    match check_duplicates(&iso.entries) {
        Ok(_) => {},
        Err(error) => return Err(error),
    }
    match check_file_items(iso) {
        Ok(_) => {},
        Err(error) => return Err(error),
    }
    match check_omissions(iso) {
        Ok(_) => {},
        Err(error) => return Err(error),
    }
    match check_placements(iso) {
        Ok(_) => {},
        Err(error) => return Err(error),
    }
    match check_joliet(iso) {
        Ok(_) => {},
        Err(error) => return Err(error),
    }
    proof {
        if iso.supplementary_volumes.len() > 0 {
            assert(iso@.supplementary_volumes[0] == iso.supplementary_volumes@[0]@);
        }
    }
    check_entries(iso)
}

/// Checks a filesystem description.
pub fn validate(iso: &Iso9660) -> (result: Result<(), Error>)
    ensures
        accepts(result, description_check(iso@)),
{
    validate_entries(iso)
}

} // verus!
