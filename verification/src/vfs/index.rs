//! Index of the controlled virtual file system: nodes by id and by path.
use vstd::prelude::*;
use vstd::string::StringExecFns;
use crate::error::{io_error, ErrorKind, IoError};
use crate::policy::{evaluate_access, spec_denial};
use crate::strings::{chars_of, is_prefix, is_same_path_or_child, is_same_path_or_child_spec, join_virtual_path,
    join_virtual_path_spec, real_path_for_virtual, real_path_spec, seq_starts_with, str_eq, string_of};
use crate::types::{blocked_placeholder_bytes, spec_placeholder_bytes, AccessDecision, ControlledEntry,
    PolicySnapshot};
use crate::vfs::mutation::{FsMutation, MutationView};
use crate::vfs::node::{file_view_spec, nodes_view, FileViewSpec, NodeId, NodeView, VfsFileView, VfsNode,
    VfsNodeKind};
use crate::vfs::path::{abs_path_error, extension_for, extension_spec, split_parent_name, split_parent_name_spec,
    validate_absolute_path, validate_name, valid_name};

verus! {

broadcast use vstd::std_specs::vec::group_vec_axioms;

/// The virtual file system index.
#[derive(Debug)]
pub struct VfsIndex {
    root_id: NodeId,
    next_id: u64,
    nodes: Vec<VfsNode>,
    mount_root: String,
}

/// The index of the first node of `s`, from `j` on, with id `id`.
pub open spec fn find_id_from(s: Seq<NodeView>, id: NodeId, j: int) -> Option<int>
    decreases s.len() - j,
{
    if j < 0 || j >= s.len() {
        None
    } else if s[j].id == id {
        Some(j)
    } else {
        find_id_from(s, id, j + 1)
    }
}

/// The index of the first node of `s`, from `j` on, at `path`.
pub open spec fn find_path_from(s: Seq<NodeView>, path: Seq<char>, j: int) -> Option<int>
    decreases s.len() - j,
{
    if j < 0 || j >= s.len() {
        None
    } else if s[j].virtual_path == path {
        Some(j)
    } else {
        find_path_from(s, path, j + 1)
    }
}

/// The index of the first node with id `id`.
pub open spec fn find_id(s: Seq<NodeView>, id: NodeId) -> Option<int> {
    find_id_from(s, id, 0)
}

/// The index of the first node at `path`.
pub open spec fn find_path(s: Seq<NodeView>, path: Seq<char>) -> Option<int> {
    find_path_from(s, path, 0)
}

pub proof fn lemma_find_id(s: Seq<NodeView>, id: NodeId, j: int)
    requires
        0 <= j,
    ensures
        match find_id_from(s, id, j) {
            Some(i) => j <= i < s.len() && s[i].id == id,
            None => forall|k: int| j <= k < s.len() ==> s[k].id != id,
        },
    decreases s.len() - j,
{
    if j < s.len() && s[j].id != id {
        lemma_find_id(s, id, j + 1);
    }
}

pub proof fn lemma_find_path(s: Seq<NodeView>, path: Seq<char>, j: int)
    requires
        0 <= j,
    ensures
        match find_path_from(s, path, j) {
            Some(i) => j <= i < s.len() && s[i].virtual_path == path,
            None => forall|k: int| j <= k < s.len() ==> s[k].virtual_path != path,
        },
    decreases s.len() - j,
{
    if j < s.len() && s[j].virtual_path != path {
        lemma_find_path(s, path, j + 1);
    }
}

/// Size of the placeholder shown in place of a blocked file.
pub open spec fn placeholder_size() -> u64 {
    spec_placeholder_bytes().len() as u64
}

/// The size and file view of the node for `e`: a directory has neither; a
/// blocked file shows the placeholder, an allowed one its real content.
pub open spec fn entry_content(e: ControlledEntry, snap: PolicySnapshot) -> (u64, Option<FileViewSpec>) {
    if e.is_dir {
        (0, None)
    } else {
        match spec_denial(e, snap) {
            None => (e.file_size, Some(FileViewSpec::RealFile)),
            Some(r) => (
                placeholder_size(),
                Some(FileViewSpec::Blocked { reason: r, real_size: e.file_size, placeholder_size: placeholder_size() }),
            ),
        }
    }
}

/// The node built for the controlled entry `e`.
pub open spec fn entry_node(id: NodeId, parent: NodeId, path: Seq<char>, e: ControlledEntry, snap: PolicySnapshot) -> NodeView {
    NodeView {
        id,
        parent: Some(parent),
        name: e.virtual_name@,
        virtual_path: path,
        real_path: e.real_path@,
        kind: if e.is_dir {
            VfsNodeKind::Directory
        } else {
            VfsNodeKind::File
        },
        size: entry_content(e, snap).0,
        file_view: entry_content(e, snap).1,
        first_cluster: None,
        is_virus: e.is_virus,
        exec_type: e.exec_type,
        extension: e.extension@,
        is_autorun_target: e.is_autorun_target,
        is_autorun_inf: e.is_autorun_inf,
        is_root_shell_script: e.is_root_shell_script,
        children: seq![],
    }
}

/// `n` with `child` appended to its children.
pub open spec fn with_child(n: NodeView, child: NodeId) -> NodeView {
    NodeView { children: n.children.push(child), ..n }
}

/// The nodes with id `parent` get `child` appended to their children.
pub open spec fn add_child(s: Seq<NodeView>, parent: NodeId, child: NodeId) -> Seq<NodeView> {
    Seq::new(s.len(), |k: int| if s[k].id == parent { with_child(s[k], child) } else { s[k] })
}

/// Inserting the entry `e` (and its subtree) below `parent` at `pp`: the nodes
/// and next id after it, or the error kind.
pub open spec fn insert_entry(
    nodes: Seq<NodeView>,
    next: u64,
    parent: NodeId,
    pp: Seq<char>,
    e: ControlledEntry,
    snap: PolicySnapshot,
) -> Result<(Seq<NodeView>, u64), ErrorKind>
    decreases e, 1nat,
{
    let path = join_virtual_path_spec(pp, e.virtual_name@);
    if next == u64::MAX {
        Err(ErrorKind::Other)
    } else if find_path(nodes, path) is Some {
        Err(ErrorKind::AlreadyExists)
    } else {
        let id = NodeId(next);
        let n1 = add_child(nodes.push(entry_node(id, parent, path, e, snap)), parent, id);
        insert_forest(n1, (next + 1) as u64, id, path, e.children@, snap)
    }
}

/// Inserting the entries `es` in order below `parent` at `pp`.
pub open spec fn insert_forest(
    nodes: Seq<NodeView>,
    next: u64,
    parent: NodeId,
    pp: Seq<char>,
    es: Seq<ControlledEntry>,
    snap: PolicySnapshot,
) -> Result<(Seq<NodeView>, u64), ErrorKind>
    decreases es, 0nat,
{
    if es.len() == 0 {
        Ok((nodes, next))
    } else {
        match insert_forest(nodes, next, parent, pp, es.drop_last(), snap) {
            Err(k) => Err(k),
            Ok((n2, x2)) => insert_entry(n2, x2, parent, pp, es.last(), snap),
        }
    }
}

/// The root node of an index over `mount_root`.
pub open spec fn root_node(mount_root: Seq<char>) -> NodeView {
    NodeView {
        id: NodeId(1),
        parent: None,
        name: seq![],
        virtual_path: seq!['/'],
        real_path: mount_root,
        kind: VfsNodeKind::Directory,
        size: 0,
        file_view: None,
        first_cluster: Some(2),
        is_virus: false,
        exec_type: None,
        extension: seq![],
        is_autorun_target: false,
        is_autorun_inf: false,
        is_root_shell_script: false,
        children: seq![],
    }
}

/// The index built from the controlled tree `entries`: its nodes and next id.
pub open spec fn spec_from_tree(mount_root: Seq<char>, entries: Seq<ControlledEntry>, snap: PolicySnapshot) -> Result<
    (Seq<NodeView>, u64),
    ErrorKind,
> {
    insert_forest(seq![root_node(mount_root)], 2, NodeId(1), seq!['/'], entries, snap)
}

/// The node kind an entry is shown as.
pub open spec fn entry_kind(e: ControlledEntry) -> VfsNodeKind {
    if e.is_dir {
        VfsNodeKind::Directory
    } else {
        VfsNodeKind::File
    }
}

/// `e`, below the directory at `pp`, has a node at its joined path with its
/// name and kind, and so has every entry of its subtree.
pub open spec fn entry_found(ns: Seq<NodeView>, pp: Seq<char>, e: ControlledEntry) -> bool
    decreases e, 1nat,
{
    let path = join_virtual_path_spec(pp, e.virtual_name@);
    &&& find_path(ns, path) matches Some(i) && ns[i].name == e.virtual_name@ && ns[i].kind == entry_kind(e)
        && ns[i].real_path == e.real_path@ && (!e.is_dir ==> ns[i].size == e.file_size || ns[i].size
        == placeholder_size())
    &&& forest_found(ns, path, e.children@)
}

/// Every entry of `es`, below the directory at `pp`, and of their subtrees
/// has a node at its joined path with its name and kind.
pub open spec fn forest_found(ns: Seq<NodeView>, pp: Seq<char>, es: Seq<ControlledEntry>) -> bool
    decreases es, 0nat,
{
    if es.len() == 0 {
        true
    } else {
        forest_found(ns, pp, es.drop_last()) && entry_found(ns, pp, es.last())
    }
}

/// `b` keeps the nodes of `a` in place, with their ids, paths, names, kinds,
/// real paths and sizes.
pub open spec fn keeps_nodes(a: Seq<NodeView>, b: Seq<NodeView>) -> bool {
    &&& a.len() <= b.len()
    &&& forall|j: int| 0 <= j < a.len() ==> same_place(#[trigger] b[j], a[j])
}

/// Two nodes agree on id, path, name, kind, real path and size.
pub open spec fn same_place(x: NodeView, y: NodeView) -> bool {
    x.id == y.id && x.virtual_path == y.virtual_path && x.name == y.name && x.kind == y.kind && x.real_path == y.real_path
        && x.size == y.size
}

proof fn lemma_find_path_kept(a: Seq<NodeView>, b: Seq<NodeView>, path: Seq<char>, j: int)
    requires
        keeps_nodes(a, b),
        find_path(a, path) matches Some(i) && 0 <= j <= i,
        forall|k: int| j <= k < find_path(a, path)->Some_0 ==> a[k].virtual_path != path,
    ensures
        find_path_from(b, path, j) == find_path(a, path),
    decreases find_path(a, path)->Some_0 - j,
{
    lemma_find_path(a, path, 0);
    let i = find_path(a, path)->Some_0;
    assert(same_place(b[j], a[j]));
    if j < i {
        lemma_find_path_kept(a, b, path, j + 1);
    }
}

/// Where `b` keeps the nodes of `a`, a path found in `a` is found in `b` at
/// the same place.
pub proof fn lemma_find_path_in_kept(a: Seq<NodeView>, b: Seq<NodeView>, path: Seq<char>)
    requires
        keeps_nodes(a, b),
        find_path(a, path) is Some,
    ensures
        find_path(b, path) == find_path(a, path),
{
    lemma_find_path(a, path, 0);
    assert forall|k: int| 0 <= k < find_path(a, path)->Some_0 implies a[k].virtual_path != path by {
        lemma_first_path(a, path, 0, k);
    }
    lemma_find_path_kept(a, b, path, 0);
}

proof fn lemma_first_path(a: Seq<NodeView>, path: Seq<char>, j: int, k: int)
    requires
        0 <= j <= k,
        find_path_from(a, path, j) matches Some(i) && k < i,
    ensures
        a[k].virtual_path != path,
    decreases k - j,
{
    if j < k {
        lemma_first_path(a, path, j + 1, k);
    }
}

/// What is found in `a` is found in every `b` that keeps the nodes of `a`.
pub proof fn lemma_forest_found_kept(a: Seq<NodeView>, b: Seq<NodeView>, pp: Seq<char>, es: Seq<ControlledEntry>)
    requires
        keeps_nodes(a, b),
        forest_found(a, pp, es),
    ensures
        forest_found(b, pp, es),
    decreases es, 0nat,
{
    if es.len() > 0 {
        lemma_forest_found_kept(a, b, pp, es.drop_last());
        lemma_entry_found_kept(a, b, pp, es.last());
    }
}

proof fn lemma_entry_found_kept(a: Seq<NodeView>, b: Seq<NodeView>, pp: Seq<char>, e: ControlledEntry)
    requires
        keeps_nodes(a, b),
        entry_found(a, pp, e),
    ensures
        entry_found(b, pp, e),
    decreases e, 1nat,
{
    let path = join_virtual_path_spec(pp, e.virtual_name@);
    lemma_find_path_in_kept(a, b, path);
    let i = find_path(a, path)->Some_0;
    lemma_find_path(a, path, 0);
    assert(same_place(b[i], a[i]));
    lemma_forest_found_kept(a, b, path, e.children@);
}

proof fn lemma_insert_forest_found(
    nodes: Seq<NodeView>,
    next: u64,
    parent: NodeId,
    pp: Seq<char>,
    es: Seq<ControlledEntry>,
    snap: PolicySnapshot,
)
    requires
        insert_forest(nodes, next, parent, pp, es, snap) is Ok,
    ensures
        keeps_nodes(nodes, insert_forest(nodes, next, parent, pp, es, snap)->Ok_0.0),
        forest_found(insert_forest(nodes, next, parent, pp, es, snap)->Ok_0.0, pp, es),
    decreases es, 0nat,
{
    if es.len() > 0 {
        let (n2, x2) = insert_forest(nodes, next, parent, pp, es.drop_last(), snap)->Ok_0;
        lemma_insert_forest_found(nodes, next, parent, pp, es.drop_last(), snap);
        lemma_insert_entry_found(n2, x2, parent, pp, es.last(), snap);
        let ns = insert_forest(nodes, next, parent, pp, es, snap)->Ok_0.0;
        lemma_forest_found_kept(n2, ns, pp, es.drop_last());
        assert forall|j: int| 0 <= j < nodes.len() implies same_place(#[trigger] ns[j], nodes[j]) by {
            assert(same_place(ns[j], n2[j]) && same_place(n2[j], nodes[j]));
        }
    }
}

proof fn lemma_insert_entry_found(
    nodes: Seq<NodeView>,
    next: u64,
    parent: NodeId,
    pp: Seq<char>,
    e: ControlledEntry,
    snap: PolicySnapshot,
)
    requires
        insert_entry(nodes, next, parent, pp, e, snap) is Ok,
    ensures
        keeps_nodes(nodes, insert_entry(nodes, next, parent, pp, e, snap)->Ok_0.0),
        entry_found(insert_entry(nodes, next, parent, pp, e, snap)->Ok_0.0, pp, e),
    decreases e, 1nat,
{
    let path = join_virtual_path_spec(pp, e.virtual_name@);
    let id = NodeId(next);
    let pushed = nodes.push(entry_node(id, parent, path, e, snap));
    let n1 = add_child(pushed, parent, id);
    lemma_find_path(nodes, path, 0);
    assert(keeps_nodes(nodes, n1)) by {
        assert forall|j: int| 0 <= j < nodes.len() implies same_place(#[trigger] n1[j], nodes[j]) by {
            assert(pushed[j] == nodes[j]);
        }
    }
    let l = nodes.len() as int;
    assert(n1[l].virtual_path == path && n1[l].name == e.virtual_name@ && n1[l].kind == entry_kind(e)
        && n1[l].real_path == e.real_path@ && n1[l].size == entry_content(e, snap).0);
    assert(find_path(n1, path) == Some(l)) by {
        assert forall|k: int| 0 <= k < l implies n1[k].virtual_path != path by {
            assert(n1[k].virtual_path == nodes[k].virtual_path);
        }
        lemma_find_path_at(n1, path, 0, l);
    }
    lemma_insert_forest_found(n1, (next + 1) as u64, id, path, e.children@, snap);
    let ns = insert_entry(nodes, next, parent, pp, e, snap)->Ok_0.0;
    lemma_find_path_in_kept(n1, ns, path);
    assert(same_place(ns[l], n1[l]));
    assert forall|j: int| 0 <= j < nodes.len() implies same_place(#[trigger] ns[j], nodes[j]) by {
        assert(same_place(ns[j], n1[j]) && same_place(n1[j], nodes[j]));
    }
}

proof fn lemma_find_path_at(s: Seq<NodeView>, path: Seq<char>, j: int, l: int)
    requires
        0 <= j <= l < s.len(),
        s[l].virtual_path == path,
        forall|k: int| j <= k < l ==> s[k].virtual_path != path,
    ensures
        find_path_from(s, path, j) == Some(l),
    decreases l - j,
{
    if j < l {
        lemma_find_path_at(s, path, j + 1, l);
    }
}

/// An index built from a controlled tree has, for every entry of the tree,
/// a node at the entry's path (the names joined below `/`) with the entry's
/// name and kind.
pub proof fn lemma_built_tree_lookup(mount_root: Seq<char>, entries: Seq<ControlledEntry>, snap: PolicySnapshot)
    requires
        spec_from_tree(mount_root, entries, snap) is Ok,
    ensures
        forest_found(spec_from_tree(mount_root, entries, snap)->Ok_0.0, seq!['/'], entries),
{
    lemma_insert_forest_found(seq![root_node(mount_root)], 2, NodeId(1), seq!['/'], entries, snap);
}

/// The root of an index built from a controlled tree stays its first node,
/// found at `/`.
pub proof fn lemma_built_root(mount_root: Seq<char>, entries: Seq<ControlledEntry>, snap: PolicySnapshot)
    requires
        spec_from_tree(mount_root, entries, snap) is Ok,
    ensures
        find_path(spec_from_tree(mount_root, entries, snap)->Ok_0.0, seq!['/']) == Some(0int),
        same_place(spec_from_tree(mount_root, entries, snap)->Ok_0.0[0], root_node(mount_root)),
{
    let r = seq![root_node(mount_root)];
    lemma_insert_forest_found(r, 2, NodeId(1), seq!['/'], entries, snap);
    assert(find_path_from(r, seq!['/'], 0) == Some(0int));
    lemma_find_path_in_kept(r, spec_from_tree(mount_root, entries, snap)->Ok_0.0, seq!['/']);
}

/// A node created at run time from a host write.
pub open spec fn runtime_node(
    id: NodeId,
    parent: NodeId,
    name: Seq<char>,
    path: Seq<char>,
    real_path: Seq<char>,
    kind: VfsNodeKind,
    size: u64,
    first_cluster: Option<u32>,
) -> NodeView {
    NodeView {
        id,
        parent: Some(parent),
        name,
        virtual_path: path,
        real_path,
        kind,
        size,
        file_view: if kind == VfsNodeKind::File {
            Some(FileViewSpec::RealFile)
        } else {
            None
        },
        first_cluster,
        is_virus: false,
        exec_type: None,
        extension: extension_spec(name),
        is_autorun_target: false,
        is_autorun_inf: false,
        is_root_shell_script: false,
        children: seq![],
    }
}

/// Creating the node `name` below `parent_path`: the nodes and next id after it,
/// or the error kind.
pub open spec fn create_node_result(
    nodes: Seq<NodeView>,
    next: u64,
    mount_root: Seq<char>,
    parent_path: Seq<char>,
    name: Seq<char>,
    kind: VfsNodeKind,
    size: u64,
    first_cluster: Option<u32>,
) -> Result<(Seq<NodeView>, u64), ErrorKind> {
    let path = join_virtual_path_spec(parent_path, name);
    if abs_path_error(parent_path) is Some {
        Err(abs_path_error(parent_path)->0)
    } else if !valid_name(name) {
        Err(ErrorKind::InvalidInput)
    } else {
        match find_path(nodes, parent_path) {
            None => Err(ErrorKind::NotFound),
            Some(pi) => if nodes[pi].kind != VfsNodeKind::Directory {
                Err(ErrorKind::InvalidInput)
            } else if find_path(nodes, path) is Some {
                Err(ErrorKind::AlreadyExists)
            } else if next == u64::MAX {
                Err(ErrorKind::Other)
            } else {
                let id = NodeId(next);
                let n = runtime_node(id, nodes[pi].id, name, path, real_path_spec(mount_root, path), kind, size, first_cluster);
                Ok((add_child(nodes.push(n), nodes[pi].id, id), (next + 1) as u64))
            },
        }
    }
}

/// `s` without the ids equal to `id`.
pub open spec fn without_id(s: Seq<NodeId>, id: NodeId) -> Seq<NodeId>
    decreases s.len(),
{
    if s.len() == 0 {
        seq![]
    } else if s.last() == id {
        without_id(s.drop_last(), id)
    } else {
        without_id(s.drop_last(), id).push(s.last())
    }
}

/// `n` after the rename of `from` (node `id`) to `to` below `new_parent`.
pub open spec fn renamed_node(
    n: NodeView,
    id: NodeId,
    old_parent: NodeId,
    new_parent: NodeId,
    from: Seq<char>,
    to: Seq<char>,
    new_name: Seq<char>,
    mount_root: Seq<char>,
) -> NodeView {
    let c1 = if n.id == old_parent {
        without_id(n.children, id)
    } else {
        n.children
    };
    let c2 = if n.id == new_parent {
        c1.push(id)
    } else {
        c1
    };
    let moved = is_same_path_or_child_spec(n.virtual_path, from);
    let path = if moved {
        to + if is_prefix(from, n.virtual_path) {
            n.virtual_path.skip(from.len() as int)
        } else {
            seq![]
        }
    } else {
        n.virtual_path
    };
    let is_root = moved && n.id == id;
    NodeView {
        children: c2,
        virtual_path: path,
        real_path: if moved {
            real_path_spec(mount_root, path)
        } else {
            n.real_path
        },
        parent: if is_root {
            Some(new_parent)
        } else {
            n.parent
        },
        name: if is_root {
            new_name
        } else {
            n.name
        },
        extension: if is_root {
            extension_spec(new_name)
        } else {
            n.extension
        },
        ..n
    }
}

/// Renaming `from` to `to`: the nodes after it, or the error kind.
pub open spec fn rename_result(nodes: Seq<NodeView>, mount_root: Seq<char>, from: Seq<char>, to: Seq<char>) -> Result<
    Seq<NodeView>,
    ErrorKind,
> {
    if abs_path_error(from) is Some {
        Err(abs_path_error(from)->0)
    } else if abs_path_error(to) is Some {
        Err(abs_path_error(to)->0)
    } else if from == seq!['/'] || to == seq!['/'] {
        Err(ErrorKind::InvalidInput)
    } else if find_path(nodes, to) is Some {
        Err(ErrorKind::AlreadyExists)
    } else {
        match find_path(nodes, from) {
            None => Err(ErrorKind::NotFound),
            Some(fi) => match split_parent_name_spec(to) {
                Err(k) => Err(k),
                Ok((pp, nm)) => match find_path(nodes, pp) {
                    None => Err(ErrorKind::NotFound),
                    Some(pi) => if nodes[pi].kind != VfsNodeKind::Directory {
                        Err(ErrorKind::InvalidInput)
                    } else {
                        let id = nodes[fi].id;
                        match find_id(nodes, id) {
                            None => Err(ErrorKind::InvalidInput),
                            Some(k) => match nodes[k].parent {
                                None => Err(ErrorKind::InvalidInput),
                                Some(op) => Ok(
                                    Seq::new(
                                        nodes.len(),
                                        |j: int| renamed_node(nodes[j], id, op, nodes[pi].id, from, to, nm, mount_root),
                                    ),
                                ),
                            },
                        }
                    },
                },
            },
        }
    }
}

/// After a successful rename of `from` to `to`, the renamed node is at `to`
/// and every node of the moved subtree has the real path that its new virtual
/// path maps to below the mount root; every other node keeps its path and
/// real path.
pub proof fn lemma_rename_moves_real_paths(nodes: Seq<NodeView>, mount_root: Seq<char>, from: Seq<char>, to: Seq<char>)
    requires
        rename_result(nodes, mount_root, from, to) is Ok,
    ensures
        ({
            let ns = rename_result(nodes, mount_root, from, to)->Ok_0;
            &&& ns.len() == nodes.len()
            &&& forall|j: int|
                0 <= j < nodes.len() && is_same_path_or_child_spec(nodes[j].virtual_path, from) ==> (#[trigger] ns[j]).real_path
                    == real_path_spec(mount_root, ns[j].virtual_path)
            &&& forall|j: int|
                0 <= j < nodes.len() && !is_same_path_or_child_spec(nodes[j].virtual_path, from) ==> (#[trigger] ns[j]).real_path
                    == nodes[j].real_path && ns[j].virtual_path == nodes[j].virtual_path
            &&& forall|j: int|
                0 <= j < nodes.len() && nodes[j].virtual_path == from ==> (#[trigger] ns[j]).virtual_path == to
                    && ns[j].real_path == real_path_spec(mount_root, to)
        }),
{
    let ns = rename_result(nodes, mount_root, from, to)->Ok_0;
    assert forall|j: int| 0 <= j < nodes.len() && nodes[j].virtual_path == from implies (#[trigger] ns[j]).virtual_path == to
        && ns[j].real_path == real_path_spec(mount_root, to) by {
        assert(is_prefix(from, nodes[j].virtual_path)) by {
            assert(nodes[j].virtual_path.take(from.len() as int) =~= from);
        }
        assert(nodes[j].virtual_path.skip(from.len() as int) =~= Seq::<char>::empty());
        assert(to + Seq::<char>::empty() =~= to);
    }
}

/// The nodes of `s` outside the subtree at `path`, in order.
pub open spec fn nodes_outside(s: Seq<NodeView>, path: Seq<char>) -> Seq<NodeView>
    decreases s.len(),
{
    if s.len() == 0 {
        seq![]
    } else if is_same_path_or_child_spec(s.last().virtual_path, path) {
        nodes_outside(s.drop_last(), path)
    } else {
        nodes_outside(s.drop_last(), path).push(s.last())
    }
}

/// `n` with `id` dropped from its children when it is `parent`.
pub open spec fn unlinked_node(n: NodeView, parent: Option<NodeId>, id: NodeId) -> NodeView {
    if parent == Some(n.id) {
        NodeView { children: without_id(n.children, id), ..n }
    } else {
        n
    }
}

/// Deleting `path` and its subtree: the nodes after it, or the error kind.
pub open spec fn delete_result(nodes: Seq<NodeView>, path: Seq<char>) -> Result<Seq<NodeView>, ErrorKind> {
    if abs_path_error(path) is Some {
        Err(abs_path_error(path)->0)
    } else if path == seq!['/'] {
        Err(ErrorKind::InvalidInput)
    } else {
        match find_path(nodes, path) {
            None => Err(ErrorKind::NotFound),
            Some(fi) => {
                let id = nodes[fi].id;
                let parent = match find_id(nodes, id) {
                    Some(k) => nodes[k].parent,
                    None => None,
                };
                Ok(nodes_outside(Seq::new(nodes.len(), |j: int| unlinked_node(nodes[j], parent, id)), path))
            },
        }
    }
}

/// Once inserting a prefix of `es` fails, inserting all of `es` fails the same way.
pub proof fn lemma_forest_err_extends(
    nodes: Seq<NodeView>,
    next: u64,
    parent: NodeId,
    pp: Seq<char>,
    es: Seq<ControlledEntry>,
    i: int,
    snap: PolicySnapshot,
)
    requires
        0 <= i <= es.len(),
        insert_forest(nodes, next, parent, pp, es.take(i), snap) is Err,
    ensures
        insert_forest(nodes, next, parent, pp, es, snap) == insert_forest(nodes, next, parent, pp, es.take(i), snap),
    decreases es.len() - i,
{
    if i < es.len() {
        assert(es.take(i + 1).drop_last() =~= es.take(i));
        lemma_forest_err_extends(nodes, next, parent, pp, es, i + 1, snap);
    } else {
        assert(es.take(i) =~= es);
    }
}

impl VfsIndex {
    /// The nodes, in insertion order.
    pub closed spec fn spec_nodes(&self) -> Seq<NodeView> {
        nodes_view(self.nodes@)
    }

    /// The id the next created node gets.
    pub closed spec fn spec_next_id(&self) -> u64 {
        self.next_id
    }

    /// The id of the root node.
    pub closed spec fn spec_root_id(&self) -> NodeId {
        self.root_id
    }

    /// The real directory the tree is mounted at.
    pub closed spec fn spec_mount_root(&self) -> Seq<char> {
        self.mount_root@
    }

    /// Builds the index of the controlled tree `entries` mounted at `mount_root`.
    /// Fails with `AlreadyExists` when two entries get the same virtual path.
    pub fn from_controlled_tree(mount_root: &str, entries: &[ControlledEntry], snapshot: &PolicySnapshot) -> (r:
        Result<Self, IoError>)
        ensures
            match spec_from_tree(mount_root@, entries@, *snapshot) {
                Ok((ns, nx)) => r matches Ok(ix) && ix.spec_nodes() == ns && ix.spec_next_id() == nx
                    && ix.spec_root_id() == NodeId(1) && ix.spec_mount_root() == mount_root@,
                Err(k) => r matches Err(e) && e.kind == k,
            },
    {
        let mut root_path = String::new();
        crate::text::push_char(&mut root_path, '/');
        let root = VfsNode {
            id: NodeId(1),
            parent: None,
            name: String::new(),
            virtual_path: root_path,
            real_path: String::from_str(mount_root),
            kind: VfsNodeKind::Directory,
            size: 0,
            file_view: None,
            first_cluster: Some(2),
            is_virus: false,
            exec_type: None,
            extension: String::new(),
            is_autorun_target: false,
            is_autorun_inf: false,
            is_root_shell_script: false,
            children: Vec::new(),
        };
        let mut nodes: Vec<VfsNode> = Vec::new();
        nodes.push(root);
        let mut index = VfsIndex { root_id: NodeId(1), next_id: 2, nodes, mount_root: String::from_str(mount_root) };
        assert(index.spec_nodes() =~= seq![root_node(mount_root@)]);
        let mut root_str = String::new();
        crate::text::push_char(&mut root_str, '/');
        assert(root_str@ =~= seq!['/']);
        let mut i: usize = 0;
        assert(entries@.take(0) =~= Seq::<ControlledEntry>::empty());
        while i < entries.len()
            invariant
                i <= entries@.len(),
                root_str@ == seq!['/'],
                index.spec_root_id() == NodeId(1),
                index.spec_mount_root() == mount_root@,
                insert_forest(seq![root_node(mount_root@)], 2, NodeId(1), seq!['/'], entries@.take(i as int), *snapshot)
                    == Ok::<(Seq<NodeView>, u64), ErrorKind>((index.spec_nodes(), index.spec_next_id())),
            decreases entries@.len() - i,
        {
            assert(entries@.take(i + 1).drop_last() =~= entries@.take(i as int));
            assert(entries@.take(i + 1).last() == entries@[i as int]);
            let ghost before_nodes = index.spec_nodes();
            let ghost before_next = index.spec_next_id();
            match index.insert_controlled_entry(NodeId(1), root_str.as_str(), &entries[i], snapshot) {
                Ok(_) => {},
                Err(e) => {
                    proof {
                        assert(insert_forest(seq![root_node(mount_root@)], 2, NodeId(1), seq!['/'], entries@.take(i + 1), *snapshot)
                            == insert_entry(before_nodes, before_next, NodeId(1), seq!['/'], entries@[i as int], *snapshot));
                        lemma_forest_err_extends(seq![root_node(mount_root@)], 2, NodeId(1), seq!['/'], entries@, i + 1, *snapshot);
                    }
                    return Err(e);
                },
            }
            i = i + 1;
        }
        assert(entries@.take(entries@.len() as int) =~= entries@);
        Ok(index)
    }

    /// Inserts the entry `entry` and its subtree below `parent` at `parent_path`.
    fn insert_controlled_entry(
        &mut self,
        parent: NodeId,
        parent_path: &str,
        entry: &ControlledEntry,
        snapshot: &PolicySnapshot,
    ) -> (r: Result<NodeId, IoError>)
        ensures
            final(self).spec_root_id() == old(self).spec_root_id(),
            final(self).spec_mount_root() == old(self).spec_mount_root(),
            match insert_entry(old(self).spec_nodes(), old(self).spec_next_id(), parent, parent_path@, *entry, *snapshot) {
                Ok((ns, nx)) => r is Ok && final(self).spec_nodes() == ns && final(self).spec_next_id() == nx,
                Err(k) => r matches Err(e) && e.kind == k,
            },
        decreases entry,
    {
        let virtual_path = join_virtual_path(parent_path, entry.virtual_name.as_str());
        if self.next_id == u64::MAX {
            return Err(io_error(ErrorKind::Other, "node id space exhausted"));
        }
        if self.lookup_index(virtual_path.as_str()).is_some() {
            return Err(io_error(ErrorKind::AlreadyExists, "duplicate virtual path"));
        }
        let id = NodeId(self.next_id);
        self.next_id = self.next_id + 1;
        let placeholder = blocked_placeholder_bytes();
        let placeholder_len = placeholder.len() as u64;
        let decision = if entry.is_dir {
            AccessDecision::Allow
        } else {
            evaluate_access(entry, snapshot)
        };
        let (size, file_view) = if entry.is_dir {
            (0u64, None)
        } else {
            match decision {
                AccessDecision::Allow => (entry.file_size, Some(VfsFileView::RealFile)),
                AccessDecision::Deny(reason) => (
                    placeholder_len,
                    Some(VfsFileView::BlockedPlaceholder { reason, real_size: entry.file_size, placeholder_size: placeholder_len }),
                ),
            }
        };
        let path_copy = virtual_path.clone();
        let node = VfsNode {
            id,
            parent: Some(parent),
            name: entry.virtual_name.clone(),
            virtual_path: path_copy,
            real_path: entry.real_path.clone(),
            kind: if entry.is_dir {
                VfsNodeKind::Directory
            } else {
                VfsNodeKind::File
            },
            size,
            file_view,
            first_cluster: None,
            is_virus: entry.is_virus,
            exec_type: entry.exec_type,
            extension: entry.extension.clone(),
            is_autorun_target: entry.is_autorun_target,
            is_autorun_inf: entry.is_autorun_inf,
            is_root_shell_script: entry.is_root_shell_script,
            children: Vec::new(),
        };
        assert(node@ == entry_node(id, parent, virtual_path@, *entry, *snapshot));
        self.nodes.push(node);
        assert(self.spec_nodes() =~= old(self).spec_nodes().push(entry_node(id, parent, virtual_path@, *entry, *snapshot)));
        self.add_child_to(parent, id);
        let ghost n1 = self.spec_nodes();
        assert(insert_entry(old(self).spec_nodes(), old(self).spec_next_id(), parent, parent_path@, *entry, *snapshot)
            == insert_forest(n1, (old(self).spec_next_id() + 1) as u64, id, virtual_path@, entry.children@, *snapshot));
        let mut i: usize = 0;
        assert(entry.children@.take(0) =~= Seq::<ControlledEntry>::empty());
        while i < entry.children.len()
            invariant
                i <= entry.children@.len(),
                insert_entry(old(self).spec_nodes(), old(self).spec_next_id(), parent, parent_path@, *entry, *snapshot)
                    == insert_forest(n1, (old(self).spec_next_id() + 1) as u64, id, virtual_path@, entry.children@, *snapshot),
                self.spec_root_id() == old(self).spec_root_id(),
                self.spec_mount_root() == old(self).spec_mount_root(),
                insert_forest(n1, (old(self).spec_next_id() + 1) as u64, id, virtual_path@, entry.children@.take(i as int), *snapshot)
                    == Ok::<(Seq<NodeView>, u64), ErrorKind>((self.spec_nodes(), self.spec_next_id())),
            decreases entry.children@.len() - i,
        {
            assert(entry.children@.take(i + 1).drop_last() =~= entry.children@.take(i as int));
            assert(entry.children@.take(i + 1).last() == entry.children@[i as int]);
            let ghost before_nodes = self.spec_nodes();
            let ghost before_next = self.spec_next_id();
            match self.insert_controlled_entry(id, virtual_path.as_str(), &entry.children[i], snapshot) {
                Ok(_) => {},
                Err(e) => {
                    proof {
                        assert(insert_forest(n1, (old(self).spec_next_id() + 1) as u64, id, virtual_path@, entry.children@.take(i + 1), *snapshot)
                            == insert_entry(before_nodes, before_next, id, virtual_path@, entry.children@[i as int], *snapshot));
                        lemma_forest_err_extends(n1, (old(self).spec_next_id() + 1) as u64, id, virtual_path@, entry.children@, i + 1, *snapshot);
                    }
                    return Err(e);
                },
            }
            i = i + 1;
        }
        assert(entry.children@.take(entry.children@.len() as int) =~= entry.children@);
        Ok(id)
    }

    /// Appends `child` to the children of the nodes with id `parent`.
    fn add_child_to(&mut self, parent: NodeId, child: NodeId)
        ensures
            final(self).spec_nodes() == add_child(old(self).spec_nodes(), parent, child),
            final(self).spec_next_id() == old(self).spec_next_id(),
            final(self).spec_root_id() == old(self).spec_root_id(),
            final(self).spec_mount_root() == old(self).spec_mount_root(),
    {
        let mut old_nodes: Vec<VfsNode> = Vec::new();
        std::mem::swap(&mut old_nodes, &mut self.nodes);
        let ghost all = nodes_view(old_nodes@);
        for n in it: old_nodes.into_iter()
            invariant
                all == nodes_view(it.seq()),
                all == old(self).spec_nodes(),
                self.next_id == old(self).spec_next_id(),
                self.root_id == old(self).spec_root_id(),
                self.mount_root@ == old(self).spec_mount_root(),
                self.nodes@.len() == it.index(),
                forall|k: int| 0 <= k < it.index() ==> (#[trigger] self.nodes@[k])@ == add_child(all, parent, child)[k],
        {
            assert(all[it.index() as int] == n@);
            let mut m = n;
            if m.id == parent {
                m.children.push(child);
            }
            self.nodes.push(m);
        }
        assert(self.spec_nodes() =~= add_child(all, parent, child));
    }

    /// The position of the first node at `path`.
    fn lookup_index(&self, path: &str) -> (r: Option<usize>)
        ensures
            match r {
                Some(i) => i < self.nodes@.len() && find_path(self.spec_nodes(), path@) == Some(i as int),
                None => find_path(self.spec_nodes(), path@) is None,
            },
    {
        proof {
            lemma_find_path(self.spec_nodes(), path@, 0);
        }
        let mut i: usize = 0;
        while i < self.nodes.len()
            invariant
                i <= self.nodes@.len(),
                find_path(self.spec_nodes(), path@) == find_path_from(self.spec_nodes(), path@, i as int),
            decreases self.nodes@.len() - i,
        {
            assert(self.spec_nodes()[i as int] == self.nodes@[i as int]@);
            if str_eq(self.nodes[i].virtual_path.as_str(), path) {
                return Some(i);
            }
            i = i + 1;
        }
        None
    }

    /// The position of the first node with id `id`.
    fn id_index(&self, id: NodeId) -> (r: Option<usize>)
        ensures
            match r {
                Some(i) => i < self.nodes@.len() && find_id(self.spec_nodes(), id) == Some(i as int),
                None => find_id(self.spec_nodes(), id) is None,
            },
    {
        proof {
            lemma_find_id(self.spec_nodes(), id, 0);
        }
        let mut i: usize = 0;
        while i < self.nodes.len()
            invariant
                i <= self.nodes@.len(),
                find_id(self.spec_nodes(), id) == find_id_from(self.spec_nodes(), id, i as int),
            decreases self.nodes@.len() - i,
        {
            assert(self.spec_nodes()[i as int] == self.nodes@[i as int]@);
            if self.nodes[i].id == id {
                return Some(i);
            }
            i = i + 1;
        }
        None
    }

    /// The id of the root node.
    pub fn root_id(&self) -> (r: NodeId)
        ensures
            r == self.spec_root_id(),
    {
        self.root_id
    }

    /// The node with id `id`.
    pub fn node(&self, id: NodeId) -> (r: Option<&VfsNode>)
        ensures
            match find_id(self.spec_nodes(), id) {
                Some(i) => r matches Some(n) && n@ == self.spec_nodes()[i],
                None => r is None,
            },
    {
        match self.id_index(id) {
            Some(i) => Some(&self.nodes[i]),
            None => None,
        }
    }

    /// The id of the node at `path`.
    pub fn lookup_path(&self, path: &str) -> (r: Option<NodeId>)
        ensures
            match find_path(self.spec_nodes(), path@) {
                Some(i) => r == Some(self.spec_nodes()[i].id),
                None => r is None,
            },
    {
        match self.lookup_index(path) {
            Some(i) => Some(self.nodes[i].id),
            None => None,
        }
    }

    /// The node at `path`.
    pub fn node_at(&self, path: &str) -> (r: Option<&VfsNode>)
        ensures
            match find_path(self.spec_nodes(), path@) {
                Some(i) => r matches Some(n) && n@ == self.spec_nodes()[i],
                None => r is None,
            },
    {
        match self.lookup_index(path) {
            Some(i) => Some(&self.nodes[i]),
            None => None,
        }
    }

    /// The real directory the tree is mounted at.
    pub fn mount_root(&self) -> (r: &str)
        ensures
            r@ == self.spec_mount_root(),
    {
        self.mount_root.as_str()
    }

    /// All nodes.
    pub fn iter_nodes(&self) -> (r: &[VfsNode])
        ensures
            nodes_view(r@) == self.spec_nodes(),
    {
        self.nodes.as_slice()
    }

    /// Sets the first cluster of the node at `virtual_path`; `NotFound` when there
    /// is none.
    pub fn set_first_cluster(&mut self, virtual_path: &str, first_cluster: Option<u32>) -> (r: Result<(), IoError>)
        ensures
            final(self).spec_next_id() == old(self).spec_next_id(),
            final(self).spec_root_id() == old(self).spec_root_id(),
            final(self).spec_mount_root() == old(self).spec_mount_root(),
            match find_path(old(self).spec_nodes(), virtual_path@) {
                Some(i) => r is Ok && final(self).spec_nodes() == old(self).spec_nodes().update(
                    i,
                    NodeView { first_cluster, ..old(self).spec_nodes()[i] },
                ),
                None => r matches Err(e) && e.kind == ErrorKind::NotFound && final(self).spec_nodes()
                    == old(self).spec_nodes(),
            },
    {
        match self.lookup_index(virtual_path) {
            None => Err(io_error(ErrorKind::NotFound, "node not found")),
            Some(i) => {
                let mut n = self.nodes.remove(i);
                n.first_cluster = first_cluster;
                self.nodes.insert(i, n);
                assert(self.spec_nodes() =~= old(self).spec_nodes().update(
                    i as int,
                    NodeView { first_cluster, ..old(self).spec_nodes()[i as int] },
                ));
                Ok(())
            },
        }
    }

    /// Sets the size (and, when `chain` is given, the first cluster) of the node at
    /// `virtual_path`; `NotFound` when there is none.
    fn set_size(&mut self, virtual_path: &str, size: u64, first_cluster: Option<Option<u32>>) -> (r: Result<(), IoError>)
        ensures
            final(self).spec_next_id() == old(self).spec_next_id(),
            final(self).spec_root_id() == old(self).spec_root_id(),
            final(self).spec_mount_root() == old(self).spec_mount_root(),
            match find_path(old(self).spec_nodes(), virtual_path@) {
                Some(i) => r is Ok && final(self).spec_nodes() == old(self).spec_nodes().update(
                    i,
                    NodeView {
                        size,
                        first_cluster: match first_cluster {
                            Some(fc) => fc,
                            None => old(self).spec_nodes()[i].first_cluster,
                        },
                        ..old(self).spec_nodes()[i]
                    },
                ),
                None => r matches Err(e) && e.kind == ErrorKind::NotFound && final(self).spec_nodes()
                    == old(self).spec_nodes(),
            },
    {
        match self.lookup_index(virtual_path) {
            None => Err(io_error(ErrorKind::NotFound, "node not found")),
            Some(i) => {
                let mut n = self.nodes.remove(i);
                n.size = size;
                match first_cluster {
                    Some(fc) => {
                        n.first_cluster = fc;
                    },
                    None => {},
                }
                self.nodes.insert(i, n);
                assert(self.spec_nodes() =~= old(self).spec_nodes().update(
                    i as int,
                    NodeView {
                        size,
                        first_cluster: match first_cluster {
                            Some(fc) => fc,
                            None => old(self).spec_nodes()[i as int].first_cluster,
                        },
                        ..old(self).spec_nodes()[i as int]
                    },
                ));
                Ok(())
            },
        }
    }
}

/// The effect of a mutation on the index: the nodes and next id after it, or
/// the error kind.
pub open spec fn apply_mutation_result(
    nodes: Seq<NodeView>,
    next: u64,
    mount_root: Seq<char>,
    m: MutationView,
) -> Result<(Seq<NodeView>, u64), ErrorKind> {
    match m {
        MutationView::CreateDir { parent, name, chain } => create_node_result(
            nodes,
            next,
            mount_root,
            parent,
            name,
            VfsNodeKind::Directory,
            0,
            match chain {
                Some(c) => Some(c.first_cluster),
                None => None,
            },
        ),
        MutationView::CreateFile { parent, name, size, chain, .. } => create_node_result(
            nodes,
            next,
            mount_root,
            parent,
            name,
            VfsNodeKind::File,
            size,
            match chain {
                Some(c) => Some(c.first_cluster),
                None => None,
            },
        ),
        MutationView::Rename { from, to, .. } => match rename_result(nodes, mount_root, from, to) {
            Ok(ns) => Ok((ns, next)),
            Err(k) => Err(k),
        },
        MutationView::Delete { virtual_path, .. } => match delete_result(nodes, virtual_path) {
            Ok(ns) => Ok((ns, next)),
            Err(k) => Err(k),
        },
        MutationView::Truncate { virtual_path, len } => match find_path(nodes, virtual_path) {
            Some(i) => Ok((nodes.update(i, NodeView { size: len, ..nodes[i] }), next)),
            None => Err(ErrorKind::NotFound),
        },
        MutationView::RewriteFile { virtual_path, size, chain, .. } => match find_path(nodes, virtual_path) {
            Some(i) => Ok(
                (
                    nodes.update(
                        i,
                        NodeView {
                            size,
                            first_cluster: match chain {
                                Some(c) => Some(c.first_cluster),
                                None => None,
                            },
                            ..nodes[i]
                        },
                    ),
                    next,
                ),
            ),
            None => Err(ErrorKind::NotFound),
        },
        MutationView::WriteFile { .. } => Ok((nodes, next)),
    }
}

impl VfsIndex {
    /// Applies a file system mutation to the index.
    pub fn apply_mutation(&mut self, mutation: &FsMutation) -> (r: Result<(), IoError>)
        ensures
            final(self).spec_root_id() == old(self).spec_root_id(),
            final(self).spec_mount_root() == old(self).spec_mount_root(),
            match apply_mutation_result(old(self).spec_nodes(), old(self).spec_next_id(), old(self).spec_mount_root(), mutation@) {
                Ok((ns, nx)) => r is Ok && final(self).spec_nodes() == ns && final(self).spec_next_id() == nx,
                Err(k) => r matches Err(e) && e.kind == k && final(self).spec_nodes() == old(self).spec_nodes()
                    && final(self).spec_next_id() == old(self).spec_next_id(),
            },
    {
        match mutation {
            FsMutation::CreateDir { parent, name, chain } => {
                let fc = match chain {
                    Some(c) => Some(c.first_cluster),
                    None => None,
                };
                self.create_runtime_node(parent.as_str(), name.as_str(), VfsNodeKind::Directory, 0, fc)
            },
            FsMutation::CreateFile { parent, name, size, chain, .. } => {
                let fc = match chain {
                    Some(c) => Some(c.first_cluster),
                    None => None,
                };
                self.create_runtime_node(parent.as_str(), name.as_str(), VfsNodeKind::File, *size, fc)
            },
            FsMutation::Rename { from, to, .. } => self.rename_path(from.as_str(), to.as_str()),
            FsMutation::Delete { virtual_path, .. } => self.delete_path(virtual_path.as_str()),
            FsMutation::Truncate { virtual_path, len } => self.set_size(virtual_path.as_str(), *len, None),
            FsMutation::RewriteFile { virtual_path, size, chain, .. } => {
                let fc = match chain {
                    Some(c) => Some(c.first_cluster),
                    None => None,
                };
                self.set_size(virtual_path.as_str(), *size, Some(fc))
            },
            FsMutation::WriteFile { .. } => Ok(()),
        }
    }

    /// Creates the node `name` below `parent_path`.
    fn create_runtime_node(
        &mut self,
        parent_path: &str,
        name: &str,
        kind: VfsNodeKind,
        size: u64,
        first_cluster: Option<u32>,
    ) -> (r: Result<(), IoError>)
        ensures
            final(self).spec_root_id() == old(self).spec_root_id(),
            final(self).spec_mount_root() == old(self).spec_mount_root(),
            match create_node_result(old(self).spec_nodes(), old(self).spec_next_id(), old(self).spec_mount_root(), parent_path@, name@, kind, size, first_cluster) {
                Ok((ns, nx)) => r is Ok && final(self).spec_nodes() == ns && final(self).spec_next_id() == nx,
                Err(k) => r matches Err(e) && e.kind == k && final(self).spec_nodes() == old(self).spec_nodes()
                    && final(self).spec_next_id() == old(self).spec_next_id(),
            },
    {
        validate_absolute_path(parent_path)?;
        let nc = chars_of(name);
        validate_name(nc.as_slice())?;
        let pi = match self.lookup_index(parent_path) {
            Some(i) => i,
            None => {
                return Err(io_error(ErrorKind::NotFound, "parent path not found"));
            },
        };
        assert(self.spec_nodes()[pi as int] == self.nodes@[pi as int]@);
        if !self.nodes[pi].is_dir() {
            return Err(io_error(ErrorKind::InvalidInput, "parent is not a directory"));
        }
        let virtual_path = join_virtual_path(parent_path, name);
        if self.lookup_index(virtual_path.as_str()).is_some() {
            return Err(io_error(ErrorKind::AlreadyExists, "virtual path already exists"));
        }
        if self.next_id == u64::MAX {
            return Err(io_error(ErrorKind::Other, "node id space exhausted"));
        }
        let parent = self.nodes[pi].id;
        let id = NodeId(self.next_id);
        self.next_id = self.next_id + 1;
        let real_path = real_path_for_virtual(self.mount_root.as_str(), virtual_path.as_str());
        let file_view = if kind == VfsNodeKind::File {
            Some(VfsFileView::RealFile)
        } else {
            None
        };
        let node = VfsNode {
            id,
            parent: Some(parent),
            name: String::from_str(name),
            virtual_path,
            real_path,
            kind,
            size,
            file_view,
            first_cluster,
            is_virus: false,
            exec_type: None,
            extension: extension_for(name),
            is_autorun_target: false,
            is_autorun_inf: false,
            is_root_shell_script: false,
            children: Vec::new(),
        };
        self.nodes.push(node);
        assert(self.spec_nodes() =~= old(self).spec_nodes().push(node@));
        self.add_child_to(parent, id);
        Ok(())
    }

    /// Renames the node at `from` (and its subtree) to `to`.
    fn rename_path(&mut self, from: &str, to: &str) -> (r: Result<(), IoError>)
        ensures
            final(self).spec_root_id() == old(self).spec_root_id(),
            final(self).spec_mount_root() == old(self).spec_mount_root(),
            final(self).spec_next_id() == old(self).spec_next_id(),
            match rename_result(old(self).spec_nodes(), old(self).spec_mount_root(), from@, to@) {
                Ok(ns) => r is Ok && final(self).spec_nodes() == ns,
                Err(k) => r matches Err(e) && e.kind == k && final(self).spec_nodes() == old(self).spec_nodes()
                    && final(self).spec_next_id() == old(self).spec_next_id(),
            },
    {
        validate_absolute_path(from)?;
        validate_absolute_path(to)?;
        let root = "/";
        proof {
            reveal_strlit("/");
        }
        assert(root@ =~= seq!['/']);
        if str_eq(from, root) || str_eq(to, root) {
            return Err(io_error(ErrorKind::InvalidInput, "cannot rename root"));
        }
        if self.lookup_index(to).is_some() {
            return Err(io_error(ErrorKind::AlreadyExists, "target path already exists"));
        }
        let fi = match self.lookup_index(from) {
            Some(i) => i,
            None => {
                return Err(io_error(ErrorKind::NotFound, "source path not found"));
            },
        };
        let id = self.nodes[fi].id;
        assert(self.spec_nodes()[fi as int] == self.nodes@[fi as int]@);
        let (new_parent_path, new_name) = split_parent_name(to)?;
        let pi = match self.lookup_index(new_parent_path.as_str()) {
            Some(i) => i,
            None => {
                return Err(io_error(ErrorKind::NotFound, "target parent not found"));
            },
        };
        assert(self.spec_nodes()[pi as int] == self.nodes@[pi as int]@);
        if !self.nodes[pi].is_dir() {
            return Err(io_error(ErrorKind::InvalidInput, "target parent is not a directory"));
        }
        let new_parent = self.nodes[pi].id;
        let k = match self.id_index(id) {
            Some(k) => k,
            None => {
                return Err(io_error(ErrorKind::InvalidInput, "source has no parent"));
            },
        };
        assert(self.spec_nodes()[k as int] == self.nodes@[k as int]@);
        let old_parent = match self.nodes[k].parent {
            Some(p) => p,
            None => {
                return Err(io_error(ErrorKind::InvalidInput, "source has no parent"));
            },
        };
        let ghost all = self.spec_nodes();
        let ghost mr = self.mount_root@;
        let fc = chars_of(from);
        let mut old_nodes: Vec<VfsNode> = Vec::new();
        std::mem::swap(&mut old_nodes, &mut self.nodes);
        for n in it: old_nodes.into_iter()
            invariant
                all == nodes_view(it.seq()),
                all == old(self).spec_nodes(),
                fc@ == from@,
                mr == self.mount_root@,
                mr == old(self).spec_mount_root(),
                self.next_id == old(self).spec_next_id(),
                self.root_id == old(self).spec_root_id(),
                self.nodes@.len() == it.index(),
                forall|j: int|
                    0 <= j < it.index() ==> (#[trigger] self.nodes@[j])@ == renamed_node(
                        all[j],
                        id,
                        old_parent,
                        new_parent,
                        from@,
                        to@,
                        new_name@,
                        mr,
                    ),
        {
            assert(all[it.index() as int] == n@);
            let mut m = n;
            if m.id == old_parent {
                m.children = without(&m.children, id);
            }
            if m.id == new_parent {
                m.children.push(id);
            }
            if is_same_path_or_child(m.virtual_path.as_str(), from) {
                let pc = chars_of(m.virtual_path.as_str());
                let mut np = String::from_str(to);
                if seq_starts_with(pc.as_slice(), fc.as_slice()) {
                    let suffix = crate::strings::string_of_range(pc.as_slice(), fc.len(), pc.len());
                    assert(suffix@ =~= m.virtual_path@.skip(from@.len() as int));
                    np.append(suffix.as_str());
                } else {
                    assert(np@ =~= to@ + Seq::<char>::empty());
                }
                m.real_path = real_path_for_virtual(self.mount_root.as_str(), np.as_str());
                m.virtual_path = np;
                if m.id == id {
                    m.parent = Some(new_parent);
                    m.name = new_name.clone();
                    m.extension = extension_for(new_name.as_str());
                }
            }
            self.nodes.push(m);
        }
        assert(self.spec_nodes() =~= Seq::new(
            all.len(),
            |j: int| renamed_node(all[j], id, old_parent, new_parent, from@, to@, new_name@, mr),
        ));
        Ok(())
    }

    /// Deletes the node at `virtual_path` and its subtree.
    fn delete_path(&mut self, virtual_path: &str) -> (r: Result<(), IoError>)
        ensures
            final(self).spec_root_id() == old(self).spec_root_id(),
            final(self).spec_mount_root() == old(self).spec_mount_root(),
            final(self).spec_next_id() == old(self).spec_next_id(),
            match delete_result(old(self).spec_nodes(), virtual_path@) {
                Ok(ns) => r is Ok && final(self).spec_nodes() == ns,
                Err(k) => r matches Err(e) && e.kind == k && final(self).spec_nodes() == old(self).spec_nodes()
                    && final(self).spec_next_id() == old(self).spec_next_id(),
            },
    {
        validate_absolute_path(virtual_path)?;
        let root = "/";
        proof {
            reveal_strlit("/");
        }
        assert(root@ =~= seq!['/']);
        if str_eq(virtual_path, root) {
            return Err(io_error(ErrorKind::InvalidInput, "cannot delete root"));
        }
        let fi = match self.lookup_index(virtual_path) {
            Some(i) => i,
            None => {
                return Err(io_error(ErrorKind::NotFound, "path not found"));
            },
        };
        let id = self.nodes[fi].id;
        assert(self.spec_nodes()[fi as int] == self.nodes@[fi as int]@);
        let parent = match self.id_index(id) {
            Some(k) => {
                assert(self.spec_nodes()[k as int] == self.nodes@[k as int]@);
                self.nodes[k].parent
            },
            None => None,
        };
        let ghost all = self.spec_nodes();
        let ghost unlinked = Seq::new(all.len(), |j: int| unlinked_node(all[j], parent, id));
        let mut old_nodes: Vec<VfsNode> = Vec::new();
        std::mem::swap(&mut old_nodes, &mut self.nodes);
        for n in it: old_nodes.into_iter()
            invariant
                all == nodes_view(it.seq()),
                all == old(self).spec_nodes(),
                unlinked == Seq::new(all.len(), |j: int| unlinked_node(all[j], parent, id)),
                self.mount_root@ == old(self).spec_mount_root(),
                self.next_id == old(self).spec_next_id(),
                self.root_id == old(self).spec_root_id(),
                self.spec_nodes() == nodes_outside(unlinked.take(it.index() as int), virtual_path@),
        {
            assert(all[it.index() as int] == n@);
            assert(unlinked.take(it.index() + 1).drop_last() =~= unlinked.take(it.index() as int));
            let mut m = n;
            if parent == Some(m.id) {
                m.children = without(&m.children, id);
            }
            assert(m@ == unlinked[it.index() as int]);
            if !is_same_path_or_child(m.virtual_path.as_str(), virtual_path) {
                self.nodes.push(m);
                assert(self.spec_nodes() =~= nodes_outside(unlinked.take(it.index() + 1), virtual_path@));
            }
        }
        assert(unlinked.take(all.len() as int) =~= unlinked);
        Ok(())
    }
}

/// `v` without the ids equal to `id`.
fn without(v: &Vec<NodeId>, id: NodeId) -> (r: Vec<NodeId>)
    ensures
        r@ == without_id(v@, id),
{
    let mut out: Vec<NodeId> = Vec::new();
    let mut i: usize = 0;
    while i < v.len()
        invariant
            i <= v@.len(),
            out@ == without_id(v@.take(i as int), id),
        decreases v@.len() - i,
    {
        assert(v@.take(i + 1).drop_last() =~= v@.take(i as int));
        if v[i] != id {
            out.push(v[i]);
        }
        i = i + 1;
    }
    assert(v@.take(v@.len() as int) =~= v@);
    out
}

/// The controlled entry that describes `node` (without children).
pub fn node_to_controlled_entry(node: &VfsNode) -> (e: ControlledEntry)
    ensures
        e.real_path@ == node.real_path@,
        e.virtual_name@ == node.name@,
        e.file_size == node.size,
        e.is_dir == (node.kind == VfsNodeKind::Directory),
        e.is_virus == node.is_virus,
        e.exec_type == node.exec_type,
        e.extension@ == node.extension@,
        e.is_autorun_target == node.is_autorun_target,
        e.is_autorun_inf == node.is_autorun_inf,
        e.is_root_shell_script == node.is_root_shell_script,
        e.children@.len() == 0,
{
    ControlledEntry {
        real_path: node.real_path.clone(),
        virtual_name: node.name.clone(),
        file_size: node.size,
        is_dir: node.is_dir(),
        is_virus: node.is_virus,
        exec_type: node.exec_type,
        extension: node.extension.clone(),
        is_autorun_target: node.is_autorun_target,
        is_autorun_inf: node.is_autorun_inf,
        is_root_shell_script: node.is_root_shell_script,
        children: Vec::new(),
    }
}

} // verus!
