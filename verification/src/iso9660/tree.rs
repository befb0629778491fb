//! Directory trees: their nodes, the order of their directories, and the
//! records that a directory is made of.
use vstd::prelude::*;

use crate::bytes::{append_bytes, copy_of};
use crate::error::{failure, Error, ErrorKind, Failure};
use crate::iso9660::description::{
    Entry, EntryModel, EntryXa, EntryXaModel, FileLayoutItem, Iso9660, IsoModel, ItemModel,
    JolietModel, JolietVolume,
};
use crate::iso9660::joliet::{encode_joliet_identifier, joliet_identifier, ucs2_bytes};
use crate::iso9660::path_table::{DirectoryPlacement, PlacementModel};
use crate::iso9660::record::size_of_record;
use crate::manifest::DirectoryRecordPacking;
use crate::model::{agrees, ceil_div, opt_view, views, views_push};
use crate::text::{
    file_name, is_root, name_of, parent_of, parent_path, root_path, root_text, same_text, utf8,
};

verus! {

/// A file or a directory of either tree, as its directory record sees it.
pub struct Node<'a> {
    pub path: &'a str,
    pub parent: String,
    pub directory: bool,
    /// The identifier of its record; a directory's is also its path table name.
    pub identifier: Vec<u8>,
    /// Its record carries XA system-use data.
    pub system_use: bool,
    pub recording_time: &'a str,
    pub hidden: bool,
    pub associated: bool,
    pub xa: &'a Option<EntryXa>,
}

/// The mathematical form of a [`Node`].
#[verifier::ext_equal]
pub struct NodeModel {
    pub path: Seq<char>,
    pub parent: Seq<char>,
    pub directory: bool,
    pub identifier: Seq<u8>,
    pub system_use: bool,
    pub recording_time: Seq<char>,
    pub hidden: bool,
    pub associated: bool,
    pub xa: Option<EntryXaModel>,
}

impl<'a> View for Node<'a> {
    type V = NodeModel;

    open spec fn view(&self) -> NodeModel {
        NodeModel {
            path: self.path@,
            parent: self.parent@,
            directory: self.directory,
            identifier: self.identifier@,
            system_use: self.system_use,
            recording_time: self.recording_time@,
            hidden: self.hidden,
            associated: self.associated,
            xa: opt_view(*self.xa),
        }
    }
}

/// The file area holds the file with the path.
pub open spec fn is_authored(files: Seq<ItemModel>, path: Seq<char>) -> bool {
    exists|i: int| 0 <= i < files.len() && #[trigger] files[i] == (ItemModel::Path { path })
}

/// The entry with the path has a fixed extent.
pub open spec fn is_referenced(entries: Seq<EntryModel>, path: Seq<char>) -> bool {
    exists|i: int|
        0 <= i < entries.len() && (#[trigger] entries[i]).path == path && entries[i].extent is Some
}

/// The path is that of a file: an authored one, or one with a fixed extent.
pub open spec fn is_file(iso: IsoModel, path: Seq<char>) -> bool {
    is_authored(iso.files, path) || is_referenced(iso.entries, path)
}

/// The entry's record carries no XA data though the others do.
pub open spec fn is_omitted(iso: IsoModel, path: Seq<char>) -> bool {
    iso.xa_system_use_omissions.contains(path)
}

/// Whether the file area holds the file with the path.
pub fn has_authored(files: &Vec<FileLayoutItem>, path: &str) -> (found: bool)
    ensures
        found == is_authored(views(files@), path@),
{
    let ghost model = views(files@);
    let mut i: usize = 0;
    while i < files.len()
        invariant
            i <= files.len(),
            model == views(files@),
            forall|j: int| 0 <= j < i ==> #[trigger] model[j] != (ItemModel::Path { path: path@ }),
        decreases files.len() - i,
    {
        assert(model[i as int] == files@[i as int]@);
        match &files[i] {
            FileLayoutItem::Path { path: candidate } => {
                if same_text(candidate.as_str(), path) {
                    return true;
                }
            },
            _ => {},
        }
        i = i + 1;
    }
    false
}

/// Whether the entry with the path has a fixed extent.
pub fn has_reference(entries: &Vec<Entry>, path: &str) -> (found: bool)
    ensures
        found == is_referenced(views(entries@), path@),
{
    let ghost model = views(entries@);
    let mut i: usize = 0;
    while i < entries.len()
        invariant
            i <= entries.len(),
            model == views(entries@),
            forall|j: int|
                0 <= j < i ==> !((#[trigger] model[j]).path == path@ && model[j].extent is Some),
        decreases entries.len() - i,
    {
        assert(model[i as int] == entries@[i as int]@);
        if entries[i].extent.is_some() && same_text(entries[i].path.as_str(), path) {
            return true;
        }
        i = i + 1;
    }
    false
}

/// Whether a path is that of a file.
pub fn is_file_path(iso: &Iso9660, path: &str) -> (file: bool)
    ensures
        file == is_file(iso@, path@),
{
    has_authored(&iso.files, path) || has_reference(&iso.entries, path)
}

/// Whether a list of texts holds a text.
pub fn contains_text(texts: &Vec<String>, text: &str) -> (found: bool)
    ensures
        found == views(texts@).contains(text@),
{
    let ghost model = views(texts@);
    let mut i: usize = 0;
    while i < texts.len()
        invariant
            i <= texts.len(),
            model == views(texts@),
            forall|j: int| 0 <= j < i ==> model[j] != text@,
        decreases texts.len() - i,
    {
        assert(model[i as int] == texts@[i as int]@);
        if same_text(texts[i].as_str(), text) {
            return true;
        }
        i = i + 1;
    }
    false
}

/// The version mark of a file: `;1`.
pub open spec fn version_text() -> Seq<char> {
    seq![';', '1']
}

/// The identifier of an entry of the primary tree.
pub open spec fn primary_identifier(path: Seq<char>, file: bool) -> Seq<char> {
    if file {
        name_of(path) + version_text()
    } else {
        name_of(path)
    }
}

/// Makes the identifier of an entry of the primary tree.
pub fn identifier(path: &str, is_file: bool) -> (text: String)
    ensures
        text@ == primary_identifier(path@, is_file),
{
    let mut name: String = file_name(path);
    if is_file {
        name.push(';');
        name.push('1');
        assert(name@ =~= name_of(path@) + version_text());
    }
    name
}

/// The node of an entry of the primary tree.
pub open spec fn primary_node(iso: IsoModel, entry: EntryModel) -> NodeModel {
    node_as(iso, entry, is_file(iso, entry.path))
}

/// The node of an entry of the primary tree that is a file or a directory.
pub open spec fn node_as(iso: IsoModel, entry: EntryModel, file: bool) -> NodeModel {
    NodeModel {
        path: entry.path,
        parent: parent_of(entry.path),
        directory: !file,
        identifier: utf8(primary_identifier(entry.path, file)),
        system_use: iso.xa_system_use && !is_omitted(iso, entry.path),
        recording_time: entry.recording_time,
        hidden: entry.hidden,
        associated: entry.associated,
        xa: entry.xa,
    }
}

/// The nodes of the primary tree.
pub open spec fn primary_nodes(iso: IsoModel) -> Seq<NodeModel> {
    Seq::new(iso.entries.len(), |i: int| primary_node(iso, iso.entries[i]))
}

/// The nodes of the primary tree where only the file area makes a file.
pub open spec fn authored_nodes(iso: IsoModel) -> Seq<NodeModel> {
    Seq::new(
        iso.entries.len(),
        |i: int|
            node_as(iso, iso.entries[i], is_authored(iso.files, iso.entries[i].path)),
    )
}

pub(crate) fn bytes_of(text: &str) -> (bytes: Vec<u8>)
    ensures
        bytes@ == utf8(text@),
{
    let source: &[u8] = text.as_bytes();
    let bytes: Vec<u8> = copy_of(source, 0, source.len());
    assert(bytes@ =~= utf8(text@));
    bytes
}

fn make_node<'a>(iso: &'a Iso9660, entry: &'a Entry, file: bool) -> (node: Node<'a>)
    ensures
        node@ == node_as(iso@, entry@, file),
{
    let path: &'a str = entry.path.as_str();
    let node = Node {
        path,
        parent: parent_path(path),
        directory: !file,
        identifier: bytes_of(identifier(path, file).as_str()),
        system_use: iso.xa_system_use && !contains_text(&iso.xa_system_use_omissions, path),
        recording_time: entry.recording_time.as_str(),
        hidden: entry.hidden,
        associated: entry.associated,
        xa: &entry.xa,
    };
    assert(node@ =~= node_as(iso@, entry@, file));
    node
}

/// Collects the nodes of the primary tree.
pub fn collect_primary_nodes<'a>(iso: &'a Iso9660) -> (nodes: Vec<Node<'a>>)
    ensures
        views(nodes@) == primary_nodes(iso@),
{
    let mut nodes: Vec<Node<'a>> = Vec::new();
    let mut i: usize = 0;
    while i < iso.entries.len()
        invariant
            i <= iso.entries.len(),
            views(nodes@) == primary_nodes(iso@).take(i as int),
        decreases iso.entries.len() - i,
    {
        let entry: &'a Entry = &iso.entries[i];
        assert(iso@.entries[i as int] == entry@);
        let node: Node<'a> = make_node(iso, entry, is_file_path(iso, entry.path.as_str()));
        proof {
            views_push(nodes@, node);
        }
        nodes.push(node);
        i = i + 1;
        assert(views(nodes@) =~= primary_nodes(iso@).take(i as int));
    }
    assert(primary_nodes(iso@).take(i as int) =~= primary_nodes(iso@));
    nodes
}

/// Collects the nodes of the primary tree where only the file area makes a file.
pub fn collect_authored_nodes<'a>(iso: &'a Iso9660) -> (nodes: Vec<Node<'a>>)
    ensures
        views(nodes@) == authored_nodes(iso@),
{
    let mut nodes: Vec<Node<'a>> = Vec::new();
    let mut i: usize = 0;
    while i < iso.entries.len()
        invariant
            i <= iso.entries.len(),
            views(nodes@) == authored_nodes(iso@).take(i as int),
        decreases iso.entries.len() - i,
    {
        let entry: &'a Entry = &iso.entries[i];
        assert(iso@.entries[i as int] == entry@);
        let node: Node<'a> = make_node(iso, entry, has_authored(&iso.files, entry.path.as_str()));
        proof {
            views_push(nodes@, node);
        }
        nodes.push(node);
        i = i + 1;
        assert(views(nodes@) =~= authored_nodes(iso@).take(i as int));
    }
    assert(authored_nodes(iso@).take(i as int) =~= authored_nodes(iso@));
    nodes
}

/// The identifier of an entry of the Joliet tree.
pub open spec fn joliet_node_identifier(path: Seq<char>, versioned: bool) -> Result<Seq<u8>, Failure> {
    match joliet_identifier(name_of(path)) {
        Err(failure) => Err(failure),
        Ok(name) => Ok(
            if versioned {
                name + ucs2_bytes(version_text())
            } else {
                name
            },
        ),
    }
}

fn make_joliet_identifier(path: &str, versioned: bool) -> (result: Result<Vec<u8>, Error>)
    ensures
        agrees(result, joliet_node_identifier(path@, versioned)),
{
    let mut name: Vec<u8> = match encode_joliet_identifier(file_name(path).as_str()) {
        Ok(name) => name,
        Err(error) => return Err(error),
    };
    if versioned {
        let version: [u8; 4] = [0u8, 59u8, 0u8, 49u8];
        assert(version@ =~= ucs2_bytes(version_text()));
        append_bytes(&mut name, version.as_slice());
    }
    Ok(name)
}

/// The node of an entry of the Joliet tree.
pub open spec fn joliet_node(volume: JolietModel, index: int) -> Result<NodeModel, Failure> {
    let entry = volume.entries[index];
    match joliet_node_identifier(entry.path, entry.source is Some && !entry.omit_version) {
        Err(failure) => Err(failure),
        Ok(identifier) => Ok(
            NodeModel {
                path: entry.path,
                parent: parent_of(entry.path),
                directory: entry.source is None,
                identifier,
                system_use: volume.xa_system_use,
                recording_time: entry.recording_time,
                hidden: entry.hidden,
                associated: entry.associated,
                xa: entry.xa,
            },
        ),
    }
}

/// `read`, and then the nodes of the Joliet tree from `index` on.
pub open spec fn joliet_nodes_from(volume: JolietModel, index: int, read: Seq<NodeModel>) -> Result<
    Seq<NodeModel>,
    Failure,
>
    decreases volume.entries.len() - index,
{
    if index < 0 || index >= volume.entries.len() {
        Ok(read)
    } else {
        match joliet_node(volume, index) {
            Err(failure) => Err(failure),
            Ok(node) => joliet_nodes_from(volume, index + 1, read.push(node)),
        }
    }
}

/// The nodes of the Joliet tree.
pub open spec fn joliet_nodes(volume: JolietModel) -> Result<Seq<NodeModel>, Failure> {
    joliet_nodes_from(volume, 0, Seq::empty())
}

/// Makes the node of an entry of the Joliet tree.
fn make_joliet_node<'a>(volume: &'a JolietVolume, index: usize) -> (result: Result<Node<'a>, Error>)
    requires
        index < volume.entries.len(),
    ensures
        match (result, joliet_node(volume@, index as int)) {
            (Ok(node), Ok(expected)) => node@ == expected,
            (Err(error), Err(failure)) => error@ == failure,
            _ => false,
        },
{
    let entry = &volume.entries[index];
    assert(volume@.entries[index as int] == entry@);
    let path: &'a str = entry.path.as_str();
    let identifier: Vec<u8> = match make_joliet_identifier(
        path,
        entry.source.is_some() && !entry.omit_version,
    ) {
        Ok(identifier) => identifier,
        Err(error) => return Err(error),
    };
    let node = Node {
        path,
        parent: parent_path(path),
        directory: entry.source.is_none(),
        identifier,
        system_use: volume.xa_system_use,
        recording_time: entry.recording_time.as_str(),
        hidden: entry.hidden,
        associated: entry.associated,
        xa: &entry.xa,
    };
    assert(node@ =~= joliet_node(volume@, index as int)->Ok_0);
    Ok(node)
}

/// Collects the nodes of the Joliet tree.
pub fn collect_joliet_nodes<'a>(volume: &'a JolietVolume) -> (result: Result<Vec<Node<'a>>, Error>)
    ensures
        match (result, joliet_nodes(volume@)) {
            (Ok(nodes), Ok(expected)) => views(nodes@) == expected && nodes.len()
                == volume.entries.len(),
            (Err(error), Err(failure)) => error@ == failure,
            _ => false,
        },
{
    let mut nodes: Vec<Node<'a>> = Vec::new();
    let mut i: usize = 0;
    assert(views(nodes@) =~= Seq::<NodeModel>::empty());
    while i < volume.entries.len()
        invariant
            i <= volume.entries.len(),
            nodes.len() == i,
            joliet_nodes(volume@) == joliet_nodes_from(volume@, i as int, views(nodes@)),
        decreases volume.entries.len() - i,
    {
        let node: Node<'a> = match make_joliet_node(volume, i) {
            Ok(node) => node,
            Err(error) => return Err(error),
        };
        proof {
            views_push(nodes@, node);
        }
        nodes.push(node);
        i = i + 1;
    }
    Ok(nodes)
}

/// `read`, and then the nodes of the Joliet tree from `index` on that lie in the
/// directory with the given path.
pub open spec fn joliet_children_from(
    volume: JolietModel,
    path: Seq<char>,
    index: int,
    read: Seq<NodeModel>,
) -> Result<Seq<NodeModel>, Failure>
    decreases volume.entries.len() - index,
{
    let entry = volume.entries[index];
    if index < 0 || index >= volume.entries.len() {
        Ok(read)
    } else if entry.path != root_path() && parent_of(entry.path) == path {
        match joliet_node(volume, index) {
            Err(failure) => Err(failure),
            Ok(node) => joliet_children_from(volume, path, index + 1, read.push(node)),
        }
    } else {
        joliet_children_from(volume, path, index + 1, read)
    }
}

/// The nodes of the Joliet tree that lie in the directory with the given path.
pub open spec fn joliet_children(volume: JolietModel, path: Seq<char>) -> Result<
    Seq<NodeModel>,
    Failure,
> {
    joliet_children_from(volume, path, 0, Seq::empty())
}

/// Collects the nodes of the Joliet tree that lie in a directory.
pub fn collect_joliet_children<'a>(volume: &'a JolietVolume, path: &str) -> (result: Result<
    Vec<Node<'a>>,
    Error,
>)
    ensures
        match (result, joliet_children(volume@, path@)) {
            (Ok(nodes), Ok(expected)) => views(nodes@) == expected,
            (Err(error), Err(failure)) => error@ == failure,
            _ => false,
        },
{
    let mut nodes: Vec<Node<'a>> = Vec::new();
    let mut i: usize = 0;
    assert(views(nodes@) =~= Seq::<NodeModel>::empty());
    while i < volume.entries.len()
        invariant
            i <= volume.entries.len(),
            joliet_children(volume@, path@) == joliet_children_from(
                volume@,
                path@,
                i as int,
                views(nodes@),
            ),
        decreases volume.entries.len() - i,
    {
        let entry = &volume.entries[i];
        assert(volume@.entries[i as int] == entry@);
        if !is_root(entry.path.as_str()) && same_text(
            parent_path(entry.path.as_str()).as_str(),
            path,
        ) {
            let node: Node<'a> = match make_joliet_node(volume, i) {
                Ok(node) => node,
                Err(error) => return Err(error),
            };
            proof {
                views_push(nodes@, node);
            }
            nodes.push(node);
        }
        i = i + 1;
    }
    Ok(nodes)
}

/// The node is a directory that lies in the directory with the given path.
pub open spec fn is_subdirectory(node: NodeModel, parent: Seq<char>) -> bool {
    node.path != root_path() && node.directory && node.parent == parent
}

/// A directory that has no place yet.
pub open spec fn unplaced(path: Seq<char>, name: Seq<u8>, parent: int, entry: int) -> PlacementModel {
    PlacementModel { path, name, parent, entry, extent: 0, blocks: 0, length: 0 }
}

/// `found`, and then the directories among the nodes from `index` on that lie in
/// the directory at `parent`.
pub open spec fn subdirectories_from(
    nodes: Seq<NodeModel>,
    path: Seq<char>,
    parent: int,
    index: int,
    found: Seq<PlacementModel>,
) -> Seq<PlacementModel>
    decreases nodes.len() - index,
{
    if index < 0 || index >= nodes.len() {
        found
    } else if is_subdirectory(nodes[index], path) {
        subdirectories_from(
            nodes,
            path,
            parent,
            index + 1,
            found.push(unplaced(nodes[index].path, nodes[index].identifier, parent, index)),
        )
    } else {
        subdirectories_from(nodes, path, parent, index + 1, found)
    }
}

/// The number of directories among the nodes from `index` on.
pub open spec fn count_directories(nodes: Seq<NodeModel>, index: int) -> nat
    decreases nodes.len() - index,
{
    if index < 0 || index >= nodes.len() {
        0
    } else {
        (if nodes[index].directory { 1nat } else { 0 }) + count_directories(nodes, index + 1)
    }
}

/// The order of a tree's directories, breadth first: `found`, and then what lies
/// in the directories from `index` on. Every directory must turn up once.
pub open spec fn directory_order_from(
    nodes: Seq<NodeModel>,
    index: int,
    found: Seq<PlacementModel>,
    unreachable: ErrorKind,
) -> Result<Seq<PlacementModel>, Failure>
    decreases count_directories(nodes, 0) + 1 - index,
{
    let expected = count_directories(nodes, 0);
    if found.len() > expected {
        Err(failure(unreachable))
    } else if index < 0 || index >= found.len() {
        if found.len() == expected {
            Ok(found)
        } else {
            Err(failure(unreachable))
        }
    } else {
        directory_order_from(
            nodes,
            index + 1,
            subdirectories_from(nodes, found[index].path, index, 0, found),
            unreachable,
        )
    }
}

/// The directories of a tree, breadth first, the root before all others.
pub open spec fn directories_of(nodes: Seq<NodeModel>, unreachable: ErrorKind) -> Result<
    Seq<PlacementModel>,
    Failure,
> {
    directory_order_from(nodes, 0, seq![unplaced(root_path(), seq![0u8], 0, 0)], unreachable)
}

/// Every directory names an entry and a directory that holds it.
pub open spec fn well_placed(directories: Seq<PlacementModel>, count: int) -> bool {
    forall|i: int|
        0 <= i < directories.len() ==> 0 <= (#[trigger] directories[i]).entry < count && 0
            <= directories[i].parent < directories.len()
}

fn push_subdirectories(
    nodes: &Vec<Node>,
    parent: usize,
    found: &mut Vec<DirectoryPlacement>,
)
    requires
        parent < old(found).len(),
        well_placed(views(old(found)@), nodes.len() as int),
    ensures
        views(final(found)@) == subdirectories_from(
            views(nodes@),
            views(old(found)@)[parent as int].path,
            parent as int,
            0,
            views(old(found)@),
        ),
        well_placed(views(final(found)@), nodes.len() as int),
        final(found).len() >= old(found).len(),
{
    let path: String = found[parent].path.clone();
    let ghost model = views(nodes@);
    let ghost start = views(found@);
    let mut i: usize = 0;
    while i < nodes.len()
        invariant
            i <= nodes.len(),
            model == views(nodes@),
            parent < start.len() <= found.len(),
            path@ == start[parent as int].path,
            well_placed(views(found@), nodes.len() as int),
            subdirectories_from(model, path@, parent as int, 0, start) == subdirectories_from(
                model,
                path@,
                parent as int,
                i as int,
                views(found@),
            ),
        decreases nodes.len() - i,
    {
        assert(model[i as int] == nodes@[i as int]@);
        if !is_root(nodes[i].path) && nodes[i].directory && same_text(
            nodes[i].parent.as_str(),
            path.as_str(),
        ) {
            let identifier: &Vec<u8> = &nodes[i].identifier;
            let name: Vec<u8> = copy_of(identifier.as_slice(), 0, identifier.len());
            assert(name@ =~= identifier@);
            let directory = DirectoryPlacement {
                path: nodes[i].path.to_owned(),
                name,
                parent,
                entry: i,
                extent: 0,
                blocks: 0,
                length: 0,
            };
            let ghost before = views(found@);
            proof {
                views_push(found@, directory);
                assert(directory@ =~= unplaced(
                    model[i as int].path,
                    model[i as int].identifier,
                    parent as int,
                    i as int,
                ));
            }
            found.push(directory);
            assert(well_placed(views(found@), nodes.len() as int)) by {
                assert forall|j: int| 0 <= j < views(found@).len() implies 0 <= (#[trigger] views(
                    found@,
                )[j]).entry < nodes.len() && 0 <= views(found@)[j].parent < views(found@).len() by {
                    if j < before.len() {
                        assert(views(found@)[j] == before[j]);
                    }
                }
            }
        }
        i = i + 1;
    }
}

fn count_directory_nodes(nodes: &Vec<Node>) -> (count: usize)
    ensures
        count == count_directories(views(nodes@), 0),
{
    let ghost model = views(nodes@);
    let mut i: usize = nodes.len();
    let mut count: usize = 0;
    while i > 0
        invariant
            i <= nodes.len(),
            model == views(nodes@),
            count == count_directories(model, i as int),
            count <= nodes.len() - i,
        decreases i,
    {
        i = i - 1;
        assert(model[i as int] == nodes@[i as int]@);
        if nodes[i].directory {
            count = count + 1;
        }
    }
    count
}

/// Puts the directories of a tree into order.
pub fn order_directories(nodes: &Vec<Node>, unreachable: ErrorKind) -> (result: Result<
    Vec<DirectoryPlacement>,
    Error,
>)
    ensures
        match (result, directories_of(views(nodes@), unreachable)) {
            (Ok(directories), Ok(expected)) => {
                &&& views(directories@) == expected
                &&& well_placed(expected, nodes.len() as int)
                &&& directories.len() > 0
            },
            (Err(error), Err(failure)) => error@ == failure,
            _ => false,
        },
{
    let ghost model = views(nodes@);
    let expected: usize = count_directory_nodes(nodes);
    if expected == 0 {
        return Err(Error::new(unreachable));
    }
    let mut name: Vec<u8> = Vec::new();
    name.push(0);
    let root = DirectoryPlacement {
        path: root_text(),
        name,
        parent: 0,
        entry: 0,
        extent: 0,
        blocks: 0,
        length: 0,
    };
    let mut found: Vec<DirectoryPlacement> = Vec::new();
    found.push(root);
    proof {
        assert(root@ =~= unplaced(root_path(), seq![0u8], 0, 0));
        assert(views(found@) =~= seq![unplaced(root_path(), seq![0u8], 0, 0)]);
    }
    let mut index: usize = 0;
    while index < found.len() && found.len() <= expected
        invariant
            index <= found.len(),
            found.len() > 0,
            nodes.len() > 0,
            model == views(nodes@),
            expected == count_directories(model, 0),
            index <= expected || found.len() > expected,
            well_placed(views(found@), nodes.len() as int),
            directories_of(model, unreachable) == directory_order_from(
                model,
                index as int,
                views(found@),
                unreachable,
            ),
        decreases expected + 1 - index,
    {
        push_subdirectories(nodes, index, &mut found);
        index = index + 1;
    }
    if found.len() != expected {
        return Err(Error::new(unreachable));
    }
    Ok(found)
}

/// Where a record of a given size starts: in the next block if it does not fit.
pub open spec fn record_start(offset: int, length: int, packing: DirectoryRecordPacking) -> int {
    let in_block = offset % 2048;
    if in_block + length > 2048 || (in_block + length == 2048 && packing
        == DirectoryRecordPacking::AvoidExactFit) {
        offset + 2048 - in_block
    } else {
        offset
    }
}

/// Where the records from `index` on end when they start at `offset`.
pub open spec fn packed_from(
    lengths: Seq<int>,
    index: int,
    offset: int,
    packing: DirectoryRecordPacking,
) -> int
    decreases lengths.len() - index,
{
    if index < 0 || index >= lengths.len() {
        offset
    } else {
        packed_from(
            lengths,
            index + 1,
            record_start(offset, lengths[index], packing) + lengths[index],
            packing,
        )
    }
}

/// The length of a directory with records of the given sizes.
pub open spec fn packed(lengths: Seq<int>, packing: DirectoryRecordPacking) -> int {
    packed_from(lengths, 0, 0, packing)
}

/// Records end no earlier than where they start, nor before any of them is in.
pub proof fn packed_from_grows(
    lengths: Seq<int>,
    index: int,
    offset: int,
    packing: DirectoryRecordPacking,
)
    requires
        forall|i: int| 0 <= i < lengths.len() ==> #[trigger] lengths[i] >= 0,
        0 <= index <= lengths.len(),
        offset >= 0,
    ensures
        packed_from(lengths, index, offset, packing) >= offset,
        forall|i: int|
            index <= i < lengths.len() ==> packed_from(lengths, index, offset, packing)
                >= #[trigger] lengths[i],
    decreases lengths.len() - index,
{
    if index < lengths.len() {
        let next = record_start(offset, lengths[index], packing) + lengths[index];
        assert(lengths[index] >= 0);
        packed_from_grows(lengths, index + 1, next, packing);
    }
}

/// The sizes, as integers.
pub open spec fn sizes(lengths: Seq<usize>) -> Seq<int> {
    Seq::new(lengths.len(), |i: int| lengths[i] as int)
}

/// The length of a directory with records of the given sizes.
pub fn packed_length(lengths: &[usize], packing: DirectoryRecordPacking) -> (length: usize)
    requires
        packed(sizes(lengths@), packing) <= usize::MAX,
    ensures
        length == packed(sizes(lengths@), packing),
{
    let ghost model = sizes(lengths@);
    let mut offset: usize = 0;
    let mut i: usize = 0;
    while i < lengths.len()
        invariant
            i <= lengths.len(),
            model == sizes(lengths@),
            packed(model, packing) <= usize::MAX,
            packed(model, packing) == packed_from(model, i as int, offset as int, packing),
        decreases lengths.len() - i,
    {
        let length: usize = lengths[i];
        let in_block: usize = offset % 2048;
        proof {
            packed_from_grows(
                model,
                i + 1,
                record_start(offset as int, length as int, packing) + length,
                packing,
            );
            assert(model[i as int] == length);
        }
        let free: usize = 2048 - in_block;
        if length > free || (length == free && packing == DirectoryRecordPacking::AvoidExactFit) {
            offset = offset + free;
        }
        offset = offset + length;
        i = i + 1;
    }
    offset
}

/// The number of blocks that records of the given sizes take; at least one.
pub fn packed_blocks(lengths: &[usize], packing: DirectoryRecordPacking) -> (blocks: usize)
    requires
        packed(sizes(lengths@), packing) <= usize::MAX,
    ensures
        blocks == (if packed(sizes(lengths@), packing) == 0 {
            1
        } else {
            ceil_div(packed(sizes(lengths@), packing), 2048)
        }),
{
    let length: usize = packed_length(lengths, packing);
    if length == 0 {
        1
    } else {
        (length - 1) / 2048 + 1
    }
}

/// The node has a record in the directory with the given path.
pub open spec fn is_child(node: NodeModel, path: Seq<char>) -> bool {
    node.path != root_path() && node.parent == path
}

/// The size of XA data, if there is any.
pub open spec fn system_use_size(present: bool) -> int {
    if present {
        14
    } else {
        0
    }
}

/// `found`, and then the sizes of the records of the nodes from `index` on that
/// lie in the directory.
pub open spec fn child_lengths_from(
    nodes: Seq<NodeModel>,
    path: Seq<char>,
    index: int,
    found: Seq<int>,
) -> Seq<int>
    decreases nodes.len() - index,
{
    if index < 0 || index >= nodes.len() {
        found
    } else if is_child(nodes[index], path) {
        child_lengths_from(
            nodes,
            path,
            index + 1,
            found.push(
                size_of_record(
                    nodes[index].identifier.len() as int,
                    system_use_size(nodes[index].system_use),
                ),
            ),
        )
    } else {
        child_lengths_from(nodes, path, index + 1, found)
    }
}

/// The sizes of the records of a directory: itself, its parent, what lies in it.
pub open spec fn record_lengths(nodes: Seq<NodeModel>, path: Seq<char>, system_use: bool) -> Seq<int> {
    let dot = size_of_record(1, system_use_size(system_use));
    child_lengths_from(nodes, path, 0, seq![dot, dot])
}

/// The length of the records of a directory.
pub open spec fn records_length(
    nodes: Seq<NodeModel>,
    path: Seq<char>,
    system_use: bool,
    packing: DirectoryRecordPacking,
) -> int {
    packed(record_lengths(nodes, path, system_use), packing)
}

/// The sizes found first stay first.
pub proof fn child_lengths_keep(nodes: Seq<NodeModel>, path: Seq<char>, index: int, found: Seq<int>)
    requires
        forall|i: int| 0 <= i < found.len() ==> #[trigger] found[i] >= 0,
    ensures
        ({
            let all = child_lengths_from(nodes, path, index, found);
            &&& found.len() <= all.len()
            &&& all.take(found.len() as int) == found
            &&& forall|i: int| 0 <= i < all.len() ==> #[trigger] all[i] >= 0
        }),
    decreases nodes.len() - index,
{
    let all = child_lengths_from(nodes, path, index, found);
    if index < 0 || index >= nodes.len() {
        assert(all.take(found.len() as int) =~= found);
    } else if is_child(nodes[index], path) {
        let longer = found.push(
            size_of_record(
                nodes[index].identifier.len() as int,
                system_use_size(nodes[index].system_use),
            ),
        );
        child_lengths_keep(nodes, path, index + 1, longer);
        assert(all.take(found.len() as int) =~= all.take(longer.len() as int).take(
            found.len() as int,
        ));
        assert(longer.take(found.len() as int) =~= found);
    } else {
        child_lengths_keep(nodes, path, index + 1, found);
    }
}

/// Measures the records of a directory, if their length fits 32 bits.
pub fn directory_record_lengths(
    path: &str,
    nodes: &Vec<Node>,
    system_use: bool,
    packing: DirectoryRecordPacking,
) -> (length: Option<u32>)
    ensures
        match length {
            Some(length) => length == records_length(views(nodes@), path@, system_use, packing),
            None => records_length(views(nodes@), path@, system_use, packing) > u32::MAX,
        },
{
    let ghost model = views(nodes@);
    let ghost all = record_lengths(model, path@, system_use);
    let dot: u64 = if system_use {
        48
    } else {
        34
    };
    let mut offset: u64 = 2 * dot;
    let mut i: usize = 0;
    let ghost mut found: Seq<int> = seq![dot as int, dot as int];
    proof {
        assert(size_of_record(1, system_use_size(system_use)) == dot);
        child_lengths_keep(model, path@, 0, found);
        reveal_with_fuel(packed_from, 3);
        assert(all.take(2)[0] == dot && all.take(2)[1] == dot);
    }
    while i < nodes.len()
        invariant
            i <= nodes.len(),
            model == views(nodes@),
            all == record_lengths(model, path@, system_use),
            all == child_lengths_from(model, path@, i as int, found),
            forall|k: int| 0 <= k < found.len() ==> #[trigger] found[k] >= 0,
            offset <= u32::MAX,
            records_length(model, path@, system_use, packing) == packed_from(
                all,
                found.len() as int,
                offset as int,
                packing,
            ),
        decreases nodes.len() - i,
    {
        assert(model[i as int] == nodes@[i as int]@);
        proof {
            child_lengths_keep(model, path@, i as int, found);
        }
        if !is_root(nodes[i].path) && same_text(nodes[i].parent.as_str(), path) {
            let name_length: usize = nodes[i].identifier.len();
            let ghost size = size_of_record(
                name_length as int,
                system_use_size(nodes@[i as int].system_use),
            );
            proof {
                let longer = found.push(size);
                assert forall|k: int| 0 <= k < longer.len() implies #[trigger] longer[k] >= 0 by {
                    if k < found.len() {
                        assert(found[k] >= 0);
                    }
                }
                child_lengths_keep(model, path@, i + 1, longer);
                assert(all.take(longer.len() as int)[found.len() as int] == size);
                assert(all[found.len() as int] == size);
                packed_from_grows(all, found.len() as int, offset as int, packing);
                found = longer;
            }
            if name_length > 0xffff_ffff {
                return None;
            }
            let length: u64 = 33 + name_length as u64 + (if name_length % 2 == 0 { 1u64 } else { 0 })
                + (if nodes[i].system_use { 14u64 } else { 0 });
            let in_block: u64 = offset % 2048;
            if in_block + length > 2048 || (in_block + length == 2048 && packing
                == DirectoryRecordPacking::AvoidExactFit) {
                offset = offset + (2048 - in_block);
            }
            offset = offset + length;
            proof {
                assert(length == size);
                packed_from_grows(all, found.len() as int, offset as int, packing);
            }
            if offset > 0xffff_ffff {
                return None;
            }
        }
        i = i + 1;
    }
    Some(offset as u32)
}

} // verus!
