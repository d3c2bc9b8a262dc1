//! Committing a resolved mutation: the admission check, the real file system
//! operations it needs, and the state changes once the real disk has them.
use vstd::prelude::*;
use crate::error::{io_error, ErrorKind, IoError, RecoverablePolicyRejection};
use crate::exfat::metadata_overlay::{applied, update_is_sector};
use crate::exfat::metadata_renderer::{bitmap_updates, directory_updates, fat_updates, merged, updates_view, MetadataRenderer};
use crate::exfat::directory_store::{clusters_under, first_with_path, records_outside, DirectoryRecord};
use crate::exfat::fat_state::link_prefix;
use crate::exfat::metadata_state::{
    all_in_range, dir_owner, file_ranges, free_one, free_ranges, mark_range_view, owned_ranges, ranges_fit, set_of,
    without_keys, MetaView,
};
use crate::exfat::sector_owner::OwnerRange;
use crate::layout::DiskLayout;
use crate::vfs::index::{find_id, find_path};
use crate::vfs::node::NodeView;
use crate::exfat::runtime_state::{node_at, ExfatRuntimeState};
use crate::exfat::sector_owner::SectorOwner;
use crate::exfat::transaction::CommittedMetadataUpdate;
use crate::exfat::transaction_resolver::blocked_path;
use crate::strings::{is_same_path_or_child_spec, remap_path_prefix_spec, chars_of, join_virtual_path, join_virtual_path_spec, last_index_of, string_of, trim_end_char, trim_end_chars};
use crate::types::PolicySnapshot;
use crate::vfs::index::apply_mutation_result;
use crate::vfs::mutation::{patches_view, ChainView, FileDataPatch, FsMutation, MutationView, NodeKind, PatchView};
use crate::vfs::node::NodeId;
use crate::vfs::operation_guard::{path_blacklisted, FsOperation, OperationGuard};
use vstd::string::StringExecFns;

verus! {

broadcast use vstd::std_specs::vec::group_vec_axioms;

/// An operation on the real file system, by virtual path (or by real path for
/// deletes).
#[derive(Debug)]
pub enum RealFsOp {
    CreateDir { virtual_path: String },
    CreateFile { virtual_path: String },
    WriteAt { virtual_path: String, offset: u64, data: Vec<u8> },
    FlushFile { virtual_path: String },
    Truncate { virtual_path: String, len: u64 },
    Rename { from: String, to: String },
    DeleteFileAtRealPath { real_path: String },
    DeleteDirAtRealPath { real_path: String },
}

/// Mathematical form of a real file system operation.
pub enum OpView {
    CreateDir { virtual_path: Seq<char> },
    CreateFile { virtual_path: Seq<char> },
    WriteAt { virtual_path: Seq<char>, offset: u64, data: Seq<u8> },
    FlushFile { virtual_path: Seq<char> },
    Truncate { virtual_path: Seq<char>, len: u64 },
    Rename { from: Seq<char>, to: Seq<char> },
    DeleteFileAtRealPath { real_path: Seq<char> },
    DeleteDirAtRealPath { real_path: Seq<char> },
}

/// The view of an operation.
pub open spec fn op_view(o: RealFsOp) -> OpView {
    match o {
        RealFsOp::CreateDir { virtual_path } => OpView::CreateDir { virtual_path: virtual_path@ },
        RealFsOp::CreateFile { virtual_path } => OpView::CreateFile { virtual_path: virtual_path@ },
        RealFsOp::WriteAt { virtual_path, offset, data } => OpView::WriteAt { virtual_path: virtual_path@, offset, data: data@ },
        RealFsOp::FlushFile { virtual_path } => OpView::FlushFile { virtual_path: virtual_path@ },
        RealFsOp::Truncate { virtual_path, len } => OpView::Truncate { virtual_path: virtual_path@, len },
        RealFsOp::Rename { from, to } => OpView::Rename { from: from@, to: to@ },
        RealFsOp::DeleteFileAtRealPath { real_path } => OpView::DeleteFileAtRealPath { real_path: real_path@ },
        RealFsOp::DeleteDirAtRealPath { real_path } => OpView::DeleteDirAtRealPath { real_path: real_path@ },
    }
}

/// The views of a list of operations.
pub open spec fn ops_view(v: Seq<RealFsOp>) -> Seq<OpView> {
    v.map_values(|o: RealFsOp| op_view(o))
}

/// A write of each patch, each followed by a flush of its file when `flush`.
pub open spec fn patch_ops(ps: Seq<PatchView>, flush: bool) -> Seq<OpView>
    decreases ps.len(),
{
    if ps.len() == 0 {
        seq![]
    } else {
        let p = ps.last();
        let w = seq![OpView::WriteAt { virtual_path: p.virtual_path, offset: p.offset, data: p.data }];
        patch_ops(ps.drop_last(), flush) + if flush {
            w.push(OpView::FlushFile { virtual_path: p.virtual_path })
        } else {
            w
        }
    }
}

/// The real file system operations a mutation needs, in order; none when the
/// target of a delete is missing.
pub open spec fn real_fs_ops(nodes: Seq<crate::vfs::node::NodeView>, m: MutationView) -> Option<Seq<OpView>> {
    match m {
        MutationView::CreateDir { parent, name, .. } => Some(
            seq![OpView::CreateDir { virtual_path: join_virtual_path_spec(parent, name) }],
        ),
        MutationView::CreateFile { parent, name, data_patches, .. } => Some(
            seq![OpView::CreateFile { virtual_path: join_virtual_path_spec(parent, name) }] + patch_ops(data_patches, true),
        ),
        MutationView::WriteFile { virtual_path, offset, data } => Some(
            seq![
                OpView::WriteAt { virtual_path, offset, data },
                OpView::FlushFile { virtual_path },
            ],
        ),
        MutationView::Truncate { virtual_path, len } => Some(
            seq![OpView::Truncate { virtual_path, len }, OpView::FlushFile { virtual_path }],
        ),
        MutationView::Rename { from, to, .. } => Some(seq![OpView::Rename { from, to }]),
        MutationView::Delete { virtual_path, kind } => match node_at(nodes, virtual_path) {
            None => None,
            Some(n) => Some(
                seq![
                    match kind {
                        NodeKind::File => OpView::DeleteFileAtRealPath { real_path: n.real_path },
                        NodeKind::Directory => OpView::DeleteDirAtRealPath { real_path: n.real_path },
                    },
                ],
            ),
        },
        MutationView::RewriteFile { virtual_path, size, data_patches, .. } => Some(
            seq![OpView::Truncate { virtual_path, len: size }] + patch_ops(data_patches, false) + seq![
                OpView::FlushFile { virtual_path },
            ],
        ),
    }
}

/// A delete plans exactly one removal at the real path of the node it names:
/// a directory removal for a directory delete, a file removal for a file
/// delete; nothing when no node is at the path.
pub proof fn lemma_delete_plans_removal(nodes: Seq<crate::vfs::node::NodeView>, virtual_path: Seq<char>, kind: NodeKind)
    ensures
        match node_at(nodes, virtual_path) {
            None => real_fs_ops(nodes, MutationView::Delete { virtual_path, kind }) is None,
            Some(n) => real_fs_ops(nodes, MutationView::Delete { virtual_path, kind }) matches Some(ops) && ops.len() == 1
                && match kind {
                NodeKind::Directory => ops[0] == OpView::DeleteDirAtRealPath { real_path: n.real_path },
                NodeKind::File => ops[0] == OpView::DeleteFileAtRealPath { real_path: n.real_path },
            },
        },
{
}

/// A rename plans one rename of the virtual paths; a truncation plans the
/// truncation then a flush of the file; a new directory plans its creation at
/// the joined path.
pub proof fn lemma_plan_shapes(nodes: Seq<crate::vfs::node::NodeView>, m: MutationView)
    ensures
        m matches MutationView::Rename { from, to, .. } ==> real_fs_ops(nodes, m) == Some(seq![OpView::Rename { from, to }]),
        m matches MutationView::Truncate { virtual_path, len } ==> real_fs_ops(nodes, m) == Some(
            seq![OpView::Truncate { virtual_path, len }, OpView::FlushFile { virtual_path }],
        ),
        m matches MutationView::CreateDir { parent, name, .. } ==> real_fs_ops(nodes, m) == Some(
            seq![OpView::CreateDir { virtual_path: join_virtual_path_spec(parent, name) }],
        ),
{
}

/// The existing file a mutation modifies (which must not be a blocked
/// placeholder).
pub open spec fn modify_target(m: MutationView) -> Option<Seq<char>> {
    match m {
        MutationView::WriteFile { virtual_path, .. } => Some(virtual_path),
        MutationView::RewriteFile { virtual_path, .. } => Some(virtual_path),
        MutationView::Truncate { virtual_path, .. } => Some(virtual_path),
        MutationView::Rename { from, .. } => Some(from),
        _ => None,
    }
}

/// Whether the operation guard refuses a mutation.
pub open spec fn guard_refuses_mutation(snap: PolicySnapshot, m: MutationView) -> bool {
    snap.permission == 0 || match m {
        MutationView::CreateDir { parent, name, .. } => path_blacklisted(snap, join_virtual_path_spec(parent, name)),
        MutationView::CreateFile { parent, name, .. } => path_blacklisted(snap, join_virtual_path_spec(parent, name)),
        MutationView::WriteFile { virtual_path, .. } => path_blacklisted(snap, virtual_path),
        MutationView::RewriteFile { virtual_path, .. } => path_blacklisted(snap, virtual_path),
        MutationView::Truncate { virtual_path, .. } => path_blacklisted(snap, virtual_path),
        MutationView::Rename { to, .. } => path_blacklisted(snap, to),
        MutationView::Delete { virtual_path, .. } => path_blacklisted(snap, virtual_path),
    }
}

/// With write permission, the guard refuses a rename mutation exactly when
/// the blacklist is enabled and some blacklisted extension ends its target
/// path, lower-cased.
pub proof fn lemma_rename_mutation_refused_by_target(snap: PolicySnapshot, from: Seq<char>, to: Seq<char>, kind: NodeKind)
    requires
        snap.permission != 0,
    ensures
        guard_refuses_mutation(snap, MutationView::Rename { from, to, kind }) <==> (snap.file_type_blacklist_enabled
            && exists|i: int|
            0 <= i < snap.blacklist_extensions@.len() && crate::strings::is_suffix(
                (#[trigger] snap.blacklist_extensions@[i])@,
                crate::strings::ascii_lower_seq(to),
            )),
{
}

/// The parent directory of `p`: none for the root or a path without `/`.
pub open spec fn parent_path_spec(p: Seq<char>) -> Option<Seq<char>> {
    if p == seq!['/'] {
        None
    } else {
        let t = trim_end_char(p, '/');
        match last_index_of(t, '/', t.len() as int) {
            None => None,
            Some(i) => if i == 0 {
                Some(seq!['/'])
            } else {
                Some(t.take(i))
            },
        }
    }
}

/// The parent directory of `p`.
pub fn parent_path(p: &str) -> (r: Option<String>)
    ensures
        match parent_path_spec(p@) {
            Some(q) => r matches Some(s) && s@ == q,
            None => r is None,
        },
{
    let pc = chars_of(p);
    if pc.len() == 1 && pc[0] == '/' {
        assert(p@ =~= seq!['/']);
        return None;
    }
    assert(p@ != seq!['/']) by {
        if p@ == seq!['/'] {
            assert(pc@.len() == 1 && pc@[0] == '/');
        }
    }
    let t = trim_end_chars(pc.as_slice(), '/');
    match crate::strings::find_last(t.as_slice(), '/', t.len()) {
        None => None,
        Some(i) => {
            if i == 0 {
                let mut s = String::new();
                crate::text::push_char(&mut s, '/');
                assert(s@ =~= seq!['/']);
                Some(s)
            } else {
                let mut out: Vec<char> = Vec::new();
                let mut k: usize = 0;
                while k < i
                    invariant
                        k <= i < t@.len(),
                        out@ == t@.take(k as int),
                    decreases i - k,
                {
                    out.push(t[k]);
                    k = k + 1;
                    assert(out@ =~= t@.take(k as int));
                }
                Some(string_of(out.as_slice()))
            }
        },
    }
}

/// Appends a write (and, when `flush`, a flush) for each patch.
fn push_patch_ops(out: &mut Vec<RealFsOp>, ps: &Vec<FileDataPatch>, flush: bool)
    ensures
        ops_view(final(out)@) == ops_view(old(out)@) + patch_ops(patches_view(ps@), flush),
{
    let ghost pv = patches_view(ps@);
    let ghost o0 = ops_view(out@);
    let mut i: usize = 0;
    assert(pv.take(0) =~= Seq::<PatchView>::empty());
    assert(o0 + Seq::<OpView>::empty() =~= o0);
    while i < ps.len()
        invariant
            i <= ps@.len(),
            pv == patches_view(ps@),
            o0 == ops_view(old(out)@),
            ops_view(out@) == o0 + patch_ops(pv.take(i as int), flush),
        decreases ps@.len() - i,
    {
        assert(pv.take(i + 1).drop_last() =~= pv.take(i as int));
        assert(pv.take(i + 1).last() == pv[i as int]);
        let p = &ps[i];
        let ghost before = ops_view(out@);
        out.push(
            RealFsOp::WriteAt {
                virtual_path: p.virtual_path.clone(),
                offset: p.offset,
                data: vstd::slice::slice_to_vec(p.data.as_slice()),
            },
        );
        let ghost w = OpView::WriteAt { virtual_path: p.virtual_path@, offset: p.offset, data: p.data@ };
        if flush {
            out.push(RealFsOp::FlushFile { virtual_path: p.virtual_path.clone() });
            assert(ops_view(out@) =~= before + seq![w].push(OpView::FlushFile { virtual_path: p.virtual_path@ }));
        } else {
            assert(ops_view(out@) =~= before + seq![w]);
        }
        i = i + 1;
    }
    assert(pv.take(pv.len() as int) =~= pv);
}

impl ExfatRuntimeState {
    /// The policy snapshot.
    pub fn snapshot(&self) -> (r: &PolicySnapshot)
        ensures
            *r == self.spec_snapshot(),
    {
        &self.snapshot
    }

    /// Refuses to modify the blocked placeholder at `virtual_path` with a
    /// recoverable rejection of `operation`.
    fn deny_modify_blocked_placeholder(&self, virtual_path: &str, operation: &str) -> (r: Result<(), IoError>)
        ensures
            r is Err <==> blocked_path(self.spec_nodes(), virtual_path@),
            r matches Err(e) ==> e.kind == ErrorKind::PermissionDenied && e.rejection is Some,
    {
        match self.lookup_path(virtual_path) {
            Some(n) => {
                if n.is_blocked_placeholder() {
                    let reason = match n.blocked_reason() {
                        Some(s) => String::from_str(s),
                        None => String::from_str("unknown"),
                    };
                    let rej = RecoverablePolicyRejection::blocked_placeholder(n.virtual_path.clone(), operation, reason);
                    return Err(rej.into_io_error());
                }
                Ok(())
            },
            None => Ok(()),
        }
    }

    /// Admits a mutation: no modification of a blocked placeholder (refused
    /// with a recoverable rejection), then the operation guard of the policy
    /// snapshot (refused with `PermissionDenied`).
    pub fn check_mutation(&self, mutation: &FsMutation) -> (r: Result<(), IoError>)
        ensures
            match modify_target(mutation@) {
                Some(p) if blocked_path(self.spec_nodes(), p) => r matches Err(e) && e.kind == ErrorKind::PermissionDenied
                    && e.rejection is Some,
                _ => (r is Ok <==> !guard_refuses_mutation(self.spec_snapshot(), mutation@)) && (r matches Err(e) ==> e.kind
                    == ErrorKind::PermissionDenied && e.rejection is None),
            },
    {
        match mutation {
            FsMutation::WriteFile { virtual_path, .. } => {
                if let Err(e) = self.deny_modify_blocked_placeholder(virtual_path.as_str(), "write_file") {
                    return Err(e);
                }
            },
            FsMutation::RewriteFile { virtual_path, .. } => {
                if let Err(e) = self.deny_modify_blocked_placeholder(virtual_path.as_str(), "rewrite_file") {
                    return Err(e);
                }
            },
            FsMutation::Truncate { virtual_path, .. } => {
                if let Err(e) = self.deny_modify_blocked_placeholder(virtual_path.as_str(), "truncate") {
                    return Err(e);
                }
            },
            FsMutation::Rename { from, .. } => {
                if let Err(e) = self.deny_modify_blocked_placeholder(from.as_str(), "rename_from") {
                    return Err(e);
                }
            },
            _ => {},
        }
        let guard = OperationGuard::new(self.snapshot.duplicate());
        let op = match mutation {
            FsMutation::CreateDir { parent, name, .. } => FsOperation::CreateDir {
                virtual_path: join_virtual_path(parent.as_str(), name.as_str()),
            },
            FsMutation::CreateFile { parent, name, .. } => FsOperation::CreateFile {
                virtual_path: join_virtual_path(parent.as_str(), name.as_str()),
            },
            FsMutation::WriteFile { virtual_path, .. } => FsOperation::WriteFile { virtual_path: virtual_path.clone() },
            FsMutation::RewriteFile { virtual_path, .. } => FsOperation::WriteFile { virtual_path: virtual_path.clone() },
            FsMutation::Truncate { virtual_path, .. } => FsOperation::Truncate { virtual_path: virtual_path.clone() },
            FsMutation::Rename { from, to, .. } => FsOperation::Rename { from: from.clone(), to: to.clone() },
            FsMutation::Delete { virtual_path, .. } => FsOperation::Delete { virtual_path: virtual_path.clone() },
        };
        proof {
            assert(self.snapshot.blacklist_extensions@.len() == guard.spec_snapshot().blacklist_extensions@.len());
            assert forall|p: Seq<char>| path_blacklisted(guard.spec_snapshot(), p) == path_blacklisted(self.snapshot, p) by {
                if path_blacklisted(guard.spec_snapshot(), p) {
                    let i = choose|i: int|
                        0 <= i < guard.spec_snapshot().blacklist_extensions@.len() && crate::strings::is_suffix(
                            (#[trigger] guard.spec_snapshot().blacklist_extensions@[i])@,
                            crate::strings::ascii_lower_seq(p),
                        );
                    assert(self.snapshot.blacklist_extensions@[i]@ == guard.spec_snapshot().blacklist_extensions@[i]@);
                }
                if path_blacklisted(self.snapshot, p) {
                    let i = choose|i: int|
                        0 <= i < self.snapshot.blacklist_extensions@.len() && crate::strings::is_suffix(
                            (#[trigger] self.snapshot.blacklist_extensions@[i])@,
                            crate::strings::ascii_lower_seq(p),
                        );
                    assert(self.snapshot.blacklist_extensions@[i]@ == guard.spec_snapshot().blacklist_extensions@[i]@);
                }
            }
        }
        guard.check(&op)
    }

    /// The real file system operations `mutation` needs, in order;
    /// `NotFound` when the target of a delete is missing.
    pub fn real_fs_plan(&self, mutation: &FsMutation) -> (r: Result<Vec<RealFsOp>, IoError>)
        ensures
            match real_fs_ops(self.spec_nodes(), mutation@) {
                Some(ops) => r matches Ok(v) && ops_view(v@) == ops,
                None => r matches Err(e) && e.kind == ErrorKind::NotFound,
            },
    {
        let mut out: Vec<RealFsOp> = Vec::new();
        match mutation {
            FsMutation::CreateDir { parent, name, .. } => {
                out.push(RealFsOp::CreateDir { virtual_path: join_virtual_path(parent.as_str(), name.as_str()) });
                assert(ops_view(out@) =~= real_fs_ops(self.spec_nodes(), mutation@)->0);
            },
            FsMutation::CreateFile { parent, name, data_patches, .. } => {
                let path = join_virtual_path(parent.as_str(), name.as_str());
                out.push(RealFsOp::CreateFile { virtual_path: path });
                let ghost first = ops_view(out@);
                push_patch_ops(&mut out, data_patches, true);
                assert(ops_view(out@) =~= real_fs_ops(self.spec_nodes(), mutation@)->0);
            },
            FsMutation::WriteFile { virtual_path, offset, data } => {
                out.push(
                    RealFsOp::WriteAt {
                        virtual_path: virtual_path.clone(),
                        offset: *offset,
                        data: vstd::slice::slice_to_vec(data.as_slice()),
                    },
                );
                out.push(RealFsOp::FlushFile { virtual_path: virtual_path.clone() });
                assert(ops_view(out@) =~= real_fs_ops(self.spec_nodes(), mutation@)->0);
            },
            FsMutation::Truncate { virtual_path, len } => {
                out.push(RealFsOp::Truncate { virtual_path: virtual_path.clone(), len: *len });
                out.push(RealFsOp::FlushFile { virtual_path: virtual_path.clone() });
                assert(ops_view(out@) =~= real_fs_ops(self.spec_nodes(), mutation@)->0);
            },
            FsMutation::Rename { from, to, .. } => {
                out.push(RealFsOp::Rename { from: from.clone(), to: to.clone() });
                assert(ops_view(out@) =~= real_fs_ops(self.spec_nodes(), mutation@)->0);
            },
            FsMutation::Delete { virtual_path, kind } => {
                let n = match self.lookup_path(virtual_path.as_str()) {
                    None => {
                        return Err(io_error(ErrorKind::NotFound, "delete target not found in VFS"));
                    },
                    Some(n) => n,
                };
                match kind {
                    NodeKind::File => out.push(RealFsOp::DeleteFileAtRealPath { real_path: n.real_path.clone() }),
                    NodeKind::Directory => out.push(RealFsOp::DeleteDirAtRealPath { real_path: n.real_path.clone() }),
                }
                assert(ops_view(out@) =~= real_fs_ops(self.spec_nodes(), mutation@)->0);
            },
            FsMutation::RewriteFile { virtual_path, size, data_patches, .. } => {
                out.push(RealFsOp::Truncate { virtual_path: virtual_path.clone(), len: *size });
                push_patch_ops(&mut out, data_patches, false);
                let ghost mid = ops_view(out@);
                out.push(RealFsOp::FlushFile { virtual_path: virtual_path.clone() });
                assert(ops_view(out@) =~= mid.push(OpView::FlushFile { virtual_path: virtual_path@ }));
                assert(ops_view(out@) =~= real_fs_ops(self.spec_nodes(), mutation@)->0);
            },
        }
        Ok(out)
    }
}

/// The metadata once every allocated cluster that holds one of the sectors
/// `start + off`, `start + off + 8`, ... below `start + len` is freed, or
/// `None` where such a cluster cannot be freed.
pub open spec fn free_range_view(v: MetaView, layout: DiskLayout, start: u64, len: u64, off: u64) -> Option<MetaView>
    decreases len - off,
{
    if off >= len {
        Some(v)
    } else {
        let step = if start + off > u64::MAX {
            Some(v)
        } else {
            match layout.spec_sector_to_cluster(start + off) {
                Some(c) => if v.bitmap.contains(c) {
                    free_one(v, layout, c)
                } else {
                    Some(v)
                },
                None => Some(v),
            }
        };
        match step {
            None => None,
            Some(w) => if len - off <= 8 {
                Some(w)
            } else {
                free_range_view(w, layout, start, len, (off + 8) as u64)
            },
        }
    }
}

/// Whether the range owner `o` is one that clearing for `file` hands back:
/// for `Some(id)` the data of file `id`, for `None` the data of a node that
/// `nodes` no longer holds.
pub open spec fn owner_hit(file: Option<NodeId>, o: SectorOwner, nodes: Seq<NodeView>) -> bool {
    match file {
        None => match o {
            SectorOwner::DirectoryData { node_id } => find_id(nodes, NodeId(node_id)) is None,
            SectorOwner::FileData { node_id, .. } => find_id(nodes, NodeId(node_id)) is None,
            SectorOwner::FileDataRange { node_id, .. } => find_id(nodes, NodeId(node_id)) is None,
            SectorOwner::AllocatedZero { node_id, .. } => find_id(nodes, NodeId(node_id)) is None,
            _ => false,
        },
        Some(id) => match o {
            SectorOwner::FileData { node_id, .. } => node_id == id.0,
            SectorOwner::FileDataRange { node_id, .. } => node_id == id.0,
            SectorOwner::AllocatedZero { node_id, .. } => node_id == id.0,
            _ => false,
        },
    }
}

/// The metadata once the range `r` is handed back: inside the cluster heap its
/// allocated clusters are freed and it becomes a free cluster range, outside
/// it is marked reserved.
pub open spec fn clear_one(v: MetaView, layout: DiskLayout, r: OwnerRange) -> Option<MetaView> {
    match layout.spec_sector_to_cluster(r.start as int) {
        Some(c) => match free_range_view(v, layout, r.start, r.len, 0) {
            Some(w) => mark_range_view(
                w,
                r.start,
                r.len,
                SectorOwner::FreeClusterRange { first_cluster: c, first_sector: r.start, sectors_per_cluster: 8 },
            ),
            None => None,
        },
        None => mark_range_view(v, r.start, r.len, SectorOwner::Reserved),
    }
}

/// The metadata once the ranges `rs[i..]` that `owner_hit` picks are handed
/// back in order, or `None` where one cannot be.
pub open spec fn clear_view(
    v: MetaView,
    layout: DiskLayout,
    nodes: Seq<NodeView>,
    file: Option<NodeId>,
    rs: Seq<OwnerRange>,
    i: int,
) -> Option<MetaView>
    decreases rs.len() - i,
{
    if 0 <= i < rs.len() {
        if owner_hit(file, rs[i].owner, nodes) {
            match clear_one(v, layout, rs[i]) {
                Some(w) => clear_view(w, layout, nodes, file, rs, i + 1),
                None => None,
            }
        } else {
            clear_view(v, layout, nodes, file, rs, i + 1)
        }
    } else {
        Some(v)
    }
}

/// A directory record as plain values: node, path and clusters.
pub open spec fn record_view(r: DirectoryRecord) -> (NodeId, Seq<char>, Seq<u32>) {
    (r.node_id, r.virtual_path@, r.clusters@)
}

/// The directory records as plain values.
pub open spec fn store_view(s: Seq<DirectoryRecord>) -> Seq<(NodeId, Seq<char>, Seq<u32>)> {
    s.map_values(|r: DirectoryRecord| record_view(r))
}

/// `a` and `b` agree on everything but the directory records.
pub open spec fn same_heap(a: MetaView, b: MetaView) -> bool {
    &&& a.fat == b.fat
    &&& a.bitmap == b.bitmap
    &&& a.ranges == b.ranges
    &&& a.counts == b.counts
}

/// `v` with the chain `cs` linked in the FAT and allocated, and the owner
/// ranges `add` marked; `None` when a cluster is out of range or a range
/// leaves the disk.
pub open spec fn chain_view(v: MetaView, cs: Seq<u32>, add: Seq<OwnerRange>) -> Option<MetaView> {
    if all_in_range(cs, v.counts.0) && all_in_range(cs, v.counts.1) && ranges_fit(add, v.counts.2) {
        Some(
            MetaView {
                fat: link_prefix(v.fat, cs, cs.len() as int),
                bitmap: v.bitmap.union(set_of(cs, cs.len() as int)),
                ranges: v.ranges + add,
                ..v
            },
        )
    } else {
        None
    }
}

/// `v` without the records of `path` and its subtree, whose clusters are
/// freed; `None` when one of them cannot be.
pub open spec fn remove_view(v: MetaView, layout: DiskLayout, path: Seq<char>) -> Option<MetaView> {
    let rm = clusters_under(v.store, path);
    if all_in_range(rm, v.counts.1) && all_in_range(rm, v.counts.0) && ranges_fit(free_ranges(layout, rm), v.counts.2) {
        Some(
            MetaView {
                store: records_outside(v.store, path),
                bitmap: v.bitmap.difference(set_of(rm, rm.len() as int)),
                fat: without_keys(v.fat, rm, rm.len() as int),
                ranges: v.ranges + free_ranges(layout, rm),
                ..v
            },
        )
    } else {
        None
    }
}

/// `v` with the chain of file `id` (of `size` bytes) recorded, or the kind of
/// error.
pub open spec fn file_chain_view(v: MetaView, layout: DiskLayout, id: NodeId, chain: Option<ChainView>, size: u64) -> Result<
    MetaView,
    ErrorKind,
> {
    match chain {
        None => Ok(v),
        Some(c) => if c.clusters.len() > u64::MAX / 4096 {
            Err(ErrorKind::InvalidInput)
        } else {
            match chain_view(v, c.clusters, file_ranges(layout, id, c.clusters, size)) {
                Some(w) => Ok(w),
                None => Err(ErrorKind::InvalidInput),
            }
        },
    }
}

/// The metadata once the mutation `m`, which `nodes` already holds, is
/// recorded in `v` (its directory records aside: see `refresh_store`), or the
/// kind of error.
pub open spec fn refresh_view(v: MetaView, layout: DiskLayout, nodes: Seq<NodeView>, m: MutationView) -> Result<MetaView, ErrorKind> {
    match m {
        MutationView::CreateDir { parent, name, chain } => {
            let path = join_virtual_path_spec(parent, name);
            match find_path(nodes, path) {
                None => Err(ErrorKind::NotFound),
                Some(i) => match chain {
                    None => Ok(v),
                    Some(c) => match chain_view(v, c.clusters, owned_ranges(layout, c.clusters, dir_owner(path, nodes[i].id))) {
                        Some(w) => Ok(w),
                        None => Err(ErrorKind::InvalidInput),
                    },
                },
            }
        },
        MutationView::CreateFile { parent, name, size, chain, .. } => {
            let path = join_virtual_path_spec(parent, name);
            match find_path(nodes, path) {
                None => Err(ErrorKind::NotFound),
                Some(i) => file_chain_view(v, layout, nodes[i].id, chain, size),
            }
        },
        MutationView::Rename { .. } => Ok(v),
        MutationView::Delete { virtual_path, .. } => match remove_view(v, layout, virtual_path) {
            Some(w) => match clear_view(w, layout, nodes, None, w.ranges, 0) {
                Some(x) => Ok(x),
                None => Err(ErrorKind::InvalidInput),
            },
            None => Err(ErrorKind::InvalidInput),
        },
        MutationView::RewriteFile { virtual_path, size, chain, .. } => match find_path(nodes, virtual_path) {
            None => Err(ErrorKind::NotFound),
            Some(i) => match clear_view(v, layout, nodes, Some(nodes[i].id), v.ranges, 0) {
                Some(w) => file_chain_view(w, layout, nodes[i].id, chain, size),
                None => Err(ErrorKind::InvalidInput),
            },
        },
        MutationView::WriteFile { .. } => Ok(v),
        MutationView::Truncate { .. } => Ok(v),
    }
}

/// The directory records, as plain values, once the mutation `m` is recorded
/// in the records `s`: a new directory's chain is set, a rename moves the
/// subtree, a delete drops it.
pub open spec fn refresh_store(s: Seq<DirectoryRecord>, nodes: Seq<NodeView>, m: MutationView) -> Seq<(NodeId, Seq<char>, Seq<u32>)> {
    match m {
        MutationView::CreateDir { parent, name, chain } => {
            let path = join_virtual_path_spec(parent, name);
            match find_path(nodes, path) {
                Some(i) => match chain {
                    Some(c) => match first_with_path(s, path) {
                        Some(k) => store_view(s).update(k, (nodes[i].id, path, c.clusters)),
                        None => store_view(s).push((nodes[i].id, path, c.clusters)),
                    },
                    None => store_view(s),
                },
                None => store_view(s),
            }
        },
        MutationView::Rename { from, to, .. } => store_view(s).map_values(
            |r: (NodeId, Seq<char>, Seq<u32>)|
                (r.0, if is_same_path_or_child_spec(r.1, from) {
                    remap_path_prefix_spec(r.1, from, to)
                } else {
                    r.1
                }, r.2),
        ),
        MutationView::Delete { virtual_path, .. } => store_view(records_outside(s, virtual_path)),
        _ => store_view(s),
    }
}

/// Setting a directory record and then taking plain values is taking plain
/// values and then setting the record's values.
proof fn lemma_store_view_set(s: Seq<DirectoryRecord>, path: Seq<char>, rec: DirectoryRecord)
    ensures
        store_view(
            match first_with_path(s, path) {
                Some(k) => s.update(k, rec),
                None => s.push(rec),
            },
        ) == match first_with_path(s, path) {
            Some(k) => store_view(s).update(k, record_view(rec)),
            None => store_view(s).push(record_view(rec)),
        },
{
    match first_with_path(s, path) {
        Some(k) => {
            crate::exfat::directory_store::lemma_first_with_path_in(s, path);
            assert(store_view(s.update(k, rec)) =~= store_view(s).update(k, record_view(rec)));
        },
        None => {
            assert(store_view(s.push(rec)) =~= store_view(s).push(record_view(rec)));
        },
    }
}

/// The path in `p`, if any, as a list.
pub open spec fn opt_seq(p: Option<Seq<char>>) -> Seq<Seq<char>> {
    match p {
        Some(q) => seq![q],
        None => seq![],
    }
}

/// The directories whose entries the mutation `m` changes: the parent of what
/// it creates, rewrites, truncates or deletes, and both parents of a rename.
pub open spec fn touched_dirs(m: MutationView) -> Seq<Seq<char>> {
    match m {
        MutationView::CreateDir { parent, .. } => seq![parent],
        MutationView::CreateFile { parent, .. } => seq![parent],
        MutationView::WriteFile { .. } => seq![],
        MutationView::Truncate { virtual_path, .. } => opt_seq(parent_path_spec(virtual_path)),
        MutationView::RewriteFile { virtual_path, .. } => opt_seq(parent_path_spec(virtual_path)),
        MutationView::Delete { virtual_path, .. } => opt_seq(parent_path_spec(virtual_path)),
        MutationView::Rename { from, to, .. } => opt_seq(parent_path_spec(from)) + opt_seq(parent_path_spec(to)),
    }
}

/// The rendered sectors of the directories `ps[..k]`, one after the other;
/// `None` when one of them cannot be rendered.
pub open spec fn dirs_updates(
    nodes: Seq<NodeView>,
    store: Seq<DirectoryRecord>,
    layout: DiskLayout,
    ps: Seq<Seq<char>>,
    k: int,
) -> Option<Seq<(u64, Seq<u8>)>>
    decreases k,
{
    if k <= 0 {
        Some(seq![])
    } else {
        match dirs_updates(nodes, store, layout, ps, k - 1) {
            None => None,
            Some(a) => match directory_updates(nodes, store, layout, ps[k - 1]) {
                Some(us) => if us.len() <= 0x40_0000 {
                    Some(a + us)
                } else {
                    None
                },
                None => None,
            },
        }
    }
}

/// Every update is exactly one sector.
pub open spec fn all_sectors(us: Seq<(u64, Seq<u8>)>) -> bool {
    forall|i: int| 0 <= i < us.len() ==> (#[trigger] us[i]).1.len() == 512
}

/// The overlay `ov` with the sector updates `us` written in order.
pub open spec fn overlay_after(ov: Map<u64, Seq<u8>>, us: Seq<(u64, Seq<u8>)>) -> Map<u64, Seq<u8>>
    decreases us.len(),
{
    if us.len() == 0 {
        ov
    } else {
        overlay_after(ov, us.drop_last()).insert(us.last().0, us.last().1)
    }
}

/// Applying updates is writing their sectors.
proof fn lemma_applied_views(ov: Map<u64, Seq<u8>>, xs: Seq<CommittedMetadataUpdate>)
    ensures
        applied(ov, xs) == overlay_after(ov, updates_view(xs)),
    decreases xs.len(),
{
    if xs.len() > 0 {
        lemma_applied_views(ov, xs.drop_last());
        assert(updates_view(xs.drop_last()) =~= updates_view(xs).drop_last());
        match xs.last() {
            CommittedMetadataUpdate::Sector { sector, data } => {
                assert(updates_view(xs).last() == (sector, data@));
            },
        }
    }
}

/// What applying the committed mutation `m` to `pre` does, ending in
/// `post`, successfully when `ok`: the index takes the mutation, the metadata
/// is refreshed, the state is checked for consistency, and the rendered FAT,
/// bitmap and touched directories are laid over the overlay. It fails only
/// where one of these steps does.
pub open spec fn apply_post(pre: ExfatRuntimeState, post: ExfatRuntimeState, m: MutationView, ok: bool) -> bool {
    let layout = pre.spec_layout();
    let meta = post.spec_metadata();
    let ps = touched_dirs(m);
    &&& post.spec_layout() == pre.spec_layout()
    &&& post.spec_volume_metadata() == pre.spec_volume_metadata()
    &&& post.spec_pending() == pre.spec_pending()
    &&& post.spec_next_tx_id() == pre.spec_next_tx_id()
    &&& post.spec_snapshot() == pre.spec_snapshot()
    &&& ok ==> {
        &&& post.spec_consistent()
        &&& apply_mutation_result(pre.spec_nodes(), pre.spec_index_next_id(), pre.spec_mount_root(), m) == Ok::<
            (Seq<NodeView>, u64),
            ErrorKind,
        >((post.spec_nodes(), post.spec_index_next_id()))
        &&& refresh_view(pre.spec_metadata().mview(), layout, post.spec_nodes(), m) matches Ok(v) && same_heap(meta.mview(), v)
        &&& store_view(meta.spec_store()) == refresh_store(pre.spec_metadata().spec_store(), post.spec_nodes(), m)
        &&& dirs_updates(post.spec_nodes(), meta.spec_store(), layout, ps, ps.len() as int) matches Some(ds)
            && post.spec_overlay() == overlay_after(
            pre.spec_overlay(),
            merged(fat_updates(meta, layout) + bitmap_updates(meta, layout) + ds),
        )
    }
    &&& !ok ==> {
        ||| apply_mutation_result(pre.spec_nodes(), pre.spec_index_next_id(), pre.spec_mount_root(), m) is Err
        ||| refresh_view(pre.spec_metadata().mview(), layout, post.spec_nodes(), m) is Err
        ||| !post.spec_consistent()
        ||| layout.fat_length_sectors > 0x7F_FFFF || meta.spec_fat_count() > 0x7FFF_FFFD
        ||| dirs_updates(post.spec_nodes(), meta.spec_store(), layout, ps, ps.len() as int) is None
        ||| (dirs_updates(post.spec_nodes(), meta.spec_store(), layout, ps, ps.len() as int) matches Some(ds) && !all_sectors(
            merged(fat_updates(meta, layout) + bitmap_updates(meta, layout) + ds),
        ))
    }
}

impl ExfatRuntimeState {
    /// Applies `mutation`, already committed to the real disk, to the state:
    /// the VFS index, the metadata, a consistency check, and the overlay of
    /// the rendered FAT, bitmap and touched directories.
    pub fn apply_committed_mutation(&mut self, mutation: &FsMutation) -> (r: Result<(), IoError>)
        requires
            old(self).wf(),
        ensures
            final(self).wf(),
            apply_mutation_result(old(self).spec_nodes(), old(self).spec_index_next_id(), old(self).spec_mount_root(), mutation@)
                matches Err(k) ==> r matches Err(e) && e.kind == k,
            apply_post(*old(self), *final(self), mutation@, r is Ok),
    {
        match self.index.apply_mutation(mutation) {
            Ok(()) => {},
            Err(e) => {
                return Err(e);
            },
        }
        match self.refresh_metadata_after_mutation(mutation) {
            Ok(()) => {},
            Err(e) => {
                return Err(e);
            },
        }
        match self.validate_consistency() {
            Ok(()) => {},
            Err(e) => {
                return Err(e);
            },
        }
        let ghost before = *self;
        let r = self.apply_committed_metadata_for_mutation(mutation);
        assert(self.spec_nodes() == before.spec_nodes());
        r
    }

    /// Updates the metadata for a mutation the index already holds.
    #[verifier::spinoff_prover]
    #[verifier::rlimit(60)]
    fn refresh_metadata_after_mutation(&mut self, mutation: &FsMutation) -> (r: Result<(), IoError>)
        requires
            old(self).wf(),
        ensures
            final(self).wf(),
            match refresh_view(old(self).metadata.mview(), old(self).volume.spec_layout(), old(self).index.spec_nodes(), mutation@) {
                Ok(v) => r is Ok && same_heap(final(self).metadata.mview(), v) && store_view(final(self).metadata.spec_store())
                    == refresh_store(old(self).metadata.spec_store(), old(self).index.spec_nodes(), mutation@),
                Err(k) => r matches Err(e) && e.kind == k,
            },
            final(self).index == old(self).index,
            final(self).volume == old(self).volume,
            final(self).metadata_overlay == old(self).metadata_overlay,
            final(self).pending_tx == old(self).pending_tx,
            final(self).next_tx_id == old(self).next_tx_id,
            final(self).snapshot == old(self).snapshot,
    {
        let layout: crate::layout::DiskLayout = *self.volume.layout();
        let ghost v0 = self.metadata.mview();
        let ghost nodes = self.index.spec_nodes();
        let ghost s0 = self.metadata.spec_store();
        match mutation {
            FsMutation::CreateDir { parent, name, chain } => {
                let path = join_virtual_path(parent.as_str(), name.as_str());
                let id = match self.index.lookup_path(path.as_str()) {
                    None => {
                        return Err(io_error(ErrorKind::NotFound, "created dir not in VFS"));
                    },
                    Some(id) => id,
                };
                match chain {
                    Some(c) => {
                        let clusters = vstd::slice::slice_to_vec(c.clusters.as_slice());
                        let ghost path_v = path@;
                        let ghost rec = DirectoryRecord { node_id: id, virtual_path: path, clusters };
                        match self.metadata.set_directory_chain(&layout, id, path, clusters) {
                            Ok(()) => {},
                            Err(e) => {
                                return Err(e);
                            },
                        }
                        proof {
                            assert(record_view(rec) == (id, path_v, c.clusters@));
                            lemma_store_view_set(s0, path_v, rec);
                        }
                    },
                    None => {},
                }
                Ok(())
            },
            FsMutation::CreateFile { parent, name, chain, size, .. } => {
                let path = join_virtual_path(parent.as_str(), name.as_str());
                let id = match self.index.lookup_path(path.as_str()) {
                    None => {
                        return Err(io_error(ErrorKind::NotFound, "created file not in VFS"));
                    },
                    Some(id) => id,
                };
                match chain {
                    Some(c) => {
                        if c.clusters.len() as u64 > u64::MAX / 4096 {
                            return Err(io_error(ErrorKind::InvalidInput, "cluster chain too long"));
                        }
                        self.metadata.mark_file_chain(&layout, id, c, *size)
                    },
                    None => Ok(()),
                }
            },
            FsMutation::Rename { from, to, .. } => {
                self.metadata.rename_subtree(from.as_str(), to.as_str());
                proof {
                    assert(store_view(self.metadata.spec_store()) =~= refresh_store(s0, nodes, mutation@));
                }
                Ok(())
            },
            FsMutation::Delete { virtual_path, .. } => {
                match self.metadata.remove_subtree(&layout, virtual_path.as_str()) {
                    Ok(_) => {},
                    Err(e) => {
                        return Err(e);
                    },
                }
                let ghost v1 = self.metadata.mview();
                assert(remove_view(v0, layout, virtual_path@) == Some(v1));
                self.clear_stale_node_owners()
            },
            FsMutation::RewriteFile { virtual_path, chain, size, .. } => {
                let id = match self.index.lookup_path(virtual_path.as_str()) {
                    None => {
                        return Err(io_error(ErrorKind::NotFound, "rewritten file not in VFS"));
                    },
                    Some(id) => id,
                };
                match self.clear_file_node_owners(id) {
                    Ok(()) => {},
                    Err(e) => {
                        return Err(e);
                    },
                }
                match chain {
                    Some(c) => {
                        if c.clusters.len() as u64 > u64::MAX / 4096 {
                            return Err(io_error(ErrorKind::InvalidInput, "cluster chain too long"));
                        }
                        self.metadata.mark_file_chain(&layout, id, c, *size)
                    },
                    None => Ok(()),
                }
            },
            FsMutation::WriteFile { .. } => Ok(()),
            FsMutation::Truncate { .. } => Ok(()),
        }
    }

    /// Frees the allocated clusters of the `len` sectors from `start`.
    fn free_allocated_clusters_for_range(&mut self, start: u64, len: u64) -> (r: Result<(), IoError>)
        requires
            old(self).wf(),
        ensures
            final(self).wf(),
            match free_range_view(old(self).metadata.mview(), old(self).volume.spec_layout(), start, len, 0) {
                Some(v) => r is Ok && final(self).metadata.mview() == v,
                None => r matches Err(e) && e.kind == ErrorKind::InvalidInput,
            },
            final(self).metadata.spec_store() == old(self).metadata.spec_store(),
            final(self).index == old(self).index,
            final(self).volume == old(self).volume,
            final(self).metadata_overlay == old(self).metadata_overlay,
            final(self).pending_tx == old(self).pending_tx,
            final(self).next_tx_id == old(self).next_tx_id,
            final(self).snapshot == old(self).snapshot,
    {
        let layout: crate::layout::DiskLayout = *self.volume.layout();
        let ghost target = free_range_view(old(self).metadata.mview(), layout, start, len, 0);
        let mut off: u64 = 0;
        while off < len
            invariant_except_break
                target == free_range_view(self.metadata.mview(), layout, start, len, off),
            invariant
                self.wf(),
                layout == self.volume.spec_layout(),
                layout.wf(),
                target == free_range_view(old(self).metadata.mview(), layout, start, len, 0),
                self.metadata.spec_store() == old(self).metadata.spec_store(),
                self.index == old(self).index,
                self.volume == old(self).volume,
                self.metadata_overlay == old(self).metadata_overlay,
                self.pending_tx == old(self).pending_tx,
                self.next_tx_id == old(self).next_tx_id,
                self.snapshot == old(self).snapshot,
            ensures
                target == Some(self.metadata.mview()),
            decreases len - off,
        {
            let ghost before = self.metadata.mview();
            let ghost step: Option<MetaView> = if start + off > u64::MAX {
                Some(before)
            } else {
                match layout.spec_sector_to_cluster(start + off) {
                    Some(c) => if before.bitmap.contains(c) {
                        free_one(before, layout, c)
                    } else {
                        Some(before)
                    },
                    None => Some(before),
                }
            };
            assert(free_range_view(before, layout, start, len, off) == match step {
                None => None,
                Some(w) => if len - off <= 8 {
                    Some(w)
                } else {
                    free_range_view(w, layout, start, len, (off + 8) as u64)
                },
            });
            match start.checked_add(off) {
                Some(sector) => match layout.sector_to_cluster(sector) {
                    Some(c) => {
                        if self.metadata.is_allocated(c) {
                            match self.metadata.mark_cluster_free(&layout, c) {
                                Ok(()) => {},
                                Err(e) => {
                                    assert(step is None);
                                    return Err(e);
                                },
                            }
                        }
                    },
                    None => {},
                },
                None => {},
            }
            assert(step == Some(self.metadata.mview()));
            if len - off <= 8 {
                break;
            }
            off = off + 8;
        }
        Ok(())
    }

    /// Hands the ranges owned by nodes the index no longer holds back to the
    /// free cluster heap (or marks them reserved outside it).
    fn clear_stale_node_owners(&mut self) -> (r: Result<(), IoError>)
        requires
            old(self).wf(),
        ensures
            final(self).wf(),
            match clear_view(
                old(self).metadata.mview(),
                old(self).volume.spec_layout(),
                old(self).index.spec_nodes(),
                None::<NodeId>,
                old(self).metadata.spec_ranges(),
                0,
            ) {
                Some(v) => r is Ok && final(self).metadata.mview() == v,
                None => r matches Err(e) && e.kind == ErrorKind::InvalidInput,
            },
            final(self).metadata.spec_store() == old(self).metadata.spec_store(),
            final(self).index == old(self).index,
            final(self).volume == old(self).volume,
            final(self).metadata_overlay == old(self).metadata_overlay,
            final(self).pending_tx == old(self).pending_tx,
            final(self).next_tx_id == old(self).next_tx_id,
            final(self).snapshot == old(self).snapshot,
    {
        self.clear_owners(None)
    }

    /// Hands the ranges owned by the file `id` back to the free cluster heap
    /// (or marks them reserved outside it).
    fn clear_file_node_owners(&mut self, id: NodeId) -> (r: Result<(), IoError>)
        requires
            old(self).wf(),
        ensures
            final(self).wf(),
            match clear_view(
                old(self).metadata.mview(),
                old(self).volume.spec_layout(),
                old(self).index.spec_nodes(),
                Some(id),
                old(self).metadata.spec_ranges(),
                0,
            ) {
                Some(v) => r is Ok && final(self).metadata.mview() == v,
                None => r matches Err(e) && e.kind == ErrorKind::InvalidInput,
            },
            final(self).metadata.spec_store() == old(self).metadata.spec_store(),
            final(self).index == old(self).index,
            final(self).volume == old(self).volume,
            final(self).metadata_overlay == old(self).metadata_overlay,
            final(self).pending_tx == old(self).pending_tx,
            final(self).next_tx_id == old(self).next_tx_id,
            final(self).snapshot == old(self).snapshot,
    {
        self.clear_owners(Some(id))
    }

    /// Frees the ranges owned by the file `file` (or, for `None`, by nodes the
    /// index no longer holds).
    fn clear_owners(&mut self, file: Option<NodeId>) -> (r: Result<(), IoError>)
        requires
            old(self).wf(),
        ensures
            final(self).wf(),
            match clear_view(
                old(self).metadata.mview(),
                old(self).volume.spec_layout(),
                old(self).index.spec_nodes(),
                file,
                old(self).metadata.spec_ranges(),
                0,
            ) {
                Some(v) => r is Ok && final(self).metadata.mview() == v,
                None => r matches Err(e) && e.kind == ErrorKind::InvalidInput,
            },
            final(self).metadata.spec_store() == old(self).metadata.spec_store(),
            final(self).index == old(self).index,
            final(self).volume == old(self).volume,
            final(self).metadata_overlay == old(self).metadata_overlay,
            final(self).pending_tx == old(self).pending_tx,
            final(self).next_tx_id == old(self).next_tx_id,
            final(self).snapshot == old(self).snapshot,
    {
        let ranges = self.metadata.explicit_ranges();
        let layout: crate::layout::DiskLayout = *self.volume.layout();
        let ghost rs = old(self).metadata.spec_ranges();
        let ghost nodes = old(self).index.spec_nodes();
        let ghost target = clear_view(old(self).metadata.mview(), layout, nodes, file, rs, 0);
        let mut i: usize = 0;
        while i < ranges.len()
            invariant
                self.wf(),
                layout == self.volume.spec_layout(),
                layout.wf(),
                i <= ranges@.len(),
                ranges@.len() == rs.len(),
                forall|j: int| 0 <= j < rs.len() ==> #[trigger] ranges@[j] == (rs[j].start, rs[j].len, rs[j].owner),
                nodes == self.index.spec_nodes(),
                rs == old(self).metadata.spec_ranges(),
                nodes == old(self).index.spec_nodes(),
                target == clear_view(old(self).metadata.mview(), layout, nodes, file, rs, 0),
                target == clear_view(self.metadata.mview(), layout, nodes, file, rs, i as int),
                self.metadata.spec_store() == old(self).metadata.spec_store(),
                self.index == old(self).index,
                self.volume == old(self).volume,
                self.metadata_overlay == old(self).metadata_overlay,
                self.pending_tx == old(self).pending_tx,
                self.next_tx_id == old(self).next_tx_id,
                self.snapshot == old(self).snapshot,
            decreases ranges@.len() - i,
        {
            let (start, len, owner) = ranges[i];
            let ghost rg = rs[i as int];
            assert(rg.start == start && rg.len == len && rg.owner == owner);
            let hit = match file {
                None => match owner {
                    SectorOwner::DirectoryData { node_id } => self.index.node(NodeId(node_id)).is_none(),
                    SectorOwner::FileData { node_id, .. } => self.index.node(NodeId(node_id)).is_none(),
                    SectorOwner::FileDataRange { node_id, .. } => self.index.node(NodeId(node_id)).is_none(),
                    SectorOwner::AllocatedZero { node_id, .. } => self.index.node(NodeId(node_id)).is_none(),
                    _ => false,
                },
                Some(id) => match owner {
                    SectorOwner::FileData { node_id, .. } => node_id == id.0,
                    SectorOwner::FileDataRange { node_id, .. } => node_id == id.0,
                    SectorOwner::AllocatedZero { node_id, .. } => node_id == id.0,
                    _ => false,
                },
            };
            assert(hit == owner_hit(file, rg.owner, nodes));
            let ghost before = self.metadata.mview();
            assert(clear_view(before, layout, nodes, file, rs, i as int) == if owner_hit(file, rg.owner, nodes) {
                match clear_one(before, layout, rg) {
                    Some(w) => clear_view(w, layout, nodes, file, rs, i + 1),
                    None => None,
                }
            } else {
                clear_view(before, layout, nodes, file, rs, i + 1)
            });
            if hit {
                let replacement = match layout.sector_to_cluster(start) {
                    Some(cluster) => {
                        match self.free_allocated_clusters_for_range(start, len) {
                            Ok(()) => {},
                            Err(e) => {
                                assert(clear_one(before, layout, rg) is None);
                                return Err(e);
                            },
                        }
                        SectorOwner::FreeClusterRange { first_cluster: cluster, first_sector: start, sectors_per_cluster: 8 }
                    },
                    None => SectorOwner::Reserved,
                };
                match self.metadata.mark_range(start, len, replacement) {
                    Ok(()) => {},
                    Err(e) => {
                        assert(clear_one(before, layout, rg) is None);
                        return Err(e);
                    },
                }
                assert(clear_one(before, layout, rg) == Some(self.metadata.mview()));
            }
            i = i + 1;
        }
        Ok(())
    }

    /// Overlays the rendered FAT, bitmap and the directories a mutation
    /// touched.
    #[verifier::spinoff_prover]
    #[verifier::rlimit(50)]
    fn apply_committed_metadata_for_mutation(&mut self, mutation: &FsMutation) -> (r: Result<(), IoError>)
        requires
            old(self).wf(),
        ensures
            final(self).wf(),
            ({
                let layout = old(self).volume.spec_layout();
                let m = old(self).metadata;
                let ps = touched_dirs(mutation@);
                if layout.fat_length_sectors > 0x7F_FFFF || m.spec_fat_count() > 0x7FFF_FFFD {
                    r matches Err(e) && e.kind == ErrorKind::InvalidData && final(self).metadata_overlay
                        == old(self).metadata_overlay
                } else {
                    match dirs_updates(old(self).index.spec_nodes(), m.spec_store(), layout, ps, ps.len() as int) {
                        None => r is Err && final(self).metadata_overlay == old(self).metadata_overlay,
                        Some(ds) => {
                            let us = merged(fat_updates(m, layout) + bitmap_updates(m, layout) + ds);
                            if all_sectors(us) {
                                r is Ok && final(self).metadata_overlay@ == overlay_after(old(self).metadata_overlay@, us)
                            } else {
                                r matches Err(e) && e.kind == ErrorKind::InvalidData
                            }
                        },
                    }
                }
            }),
            final(self).index == old(self).index,
            final(self).volume == old(self).volume,
            final(self).metadata == old(self).metadata,
            final(self).pending_tx == old(self).pending_tx,
            final(self).next_tx_id == old(self).next_tx_id,
            final(self).snapshot == old(self).snapshot,
    {
        let layout: crate::layout::DiskLayout = *self.volume.layout();
        if layout.fat_length_sectors > 0x7F_FFFF || self.metadata.fat_cluster_count() > 0x7FFF_FFFD {
            return Err(io_error(ErrorKind::InvalidData, "FAT too large to render"));
        }
        let renderer = MetadataRenderer;
        let mut updates = renderer.render_fat_and_bitmap(&self.metadata, &layout);
        let ghost fb = updates_view(updates@);
        let ghost nodes = self.index.spec_nodes();
        let ghost store = self.metadata.spec_store();
        let ghost ps = touched_dirs(mutation@);
        let mut parents: Vec<String> = Vec::new();
        match mutation {
            FsMutation::CreateDir { parent, .. } => parents.push(parent.clone()),
            FsMutation::CreateFile { parent, .. } => parents.push(parent.clone()),
            FsMutation::WriteFile { .. } => {},
            FsMutation::Truncate { virtual_path, .. } => {
                if let Some(p) = parent_path(virtual_path.as_str()) {
                    parents.push(p);
                }
            },
            FsMutation::RewriteFile { virtual_path, .. } => {
                if let Some(p) = parent_path(virtual_path.as_str()) {
                    parents.push(p);
                }
            },
            FsMutation::Delete { virtual_path, .. } => {
                if let Some(p) = parent_path(virtual_path.as_str()) {
                    parents.push(p);
                }
            },
            FsMutation::Rename { from, to, .. } => {
                if let Some(p) = parent_path(from.as_str()) {
                    parents.push(p);
                }
                if let Some(p) = parent_path(to.as_str()) {
                    parents.push(p);
                }
            },
        }
        assert(parents@.len() == ps.len());
        assert(forall|i: int| 0 <= i < ps.len() ==> (#[trigger] parents@[i])@ == ps[i]);
        let mut k: usize = 0;
        while k < parents.len()
            invariant
                layout.wf(),
                layout == self.volume.spec_layout(),
                self.wf(),
                k <= parents@.len(),
                layout.fat_length_sectors <= 0x7F_FFFF,
                self.metadata.spec_fat_count() <= 0x7FFF_FFFD,
                ps == touched_dirs(mutation@),
                parents@.len() == ps.len(),
                forall|i: int| 0 <= i < ps.len() ==> (#[trigger] parents@[i])@ == ps[i],
                nodes == self.index.spec_nodes(),
                store == self.metadata.spec_store(),
                dirs_updates(nodes, store, layout, ps, k as int) matches Some(a) && updates_view(updates@) == fb + a,
                self.index == old(self).index,
                self.volume == old(self).volume,
                self.metadata == old(self).metadata,
                self.metadata_overlay == old(self).metadata_overlay,
                self.pending_tx == old(self).pending_tx,
                self.next_tx_id == old(self).next_tx_id,
                self.snapshot == old(self).snapshot,
            decreases parents@.len() - k,
        {
            let ghost before = updates_view(updates@);
            match renderer.render_directory(parents[k].as_str(), &self.index, &self.metadata, &layout) {
                Ok(mut more) => {
                    let ghost mv = updates_view(more@);
                    updates.append(&mut more);
                    assert(updates_view(updates@) =~= before + mv);
                    proof {
                        let a = dirs_updates(nodes, store, layout, ps, k as int)->Some_0;
                        assert(fb + a + mv =~= fb + (a + mv));
                    }
                },
                Err(e) => {
                    assert(dirs_updates(nodes, store, layout, ps, k + 1) is None);
                    proof {
                        lemma_dirs_updates_none(nodes, store, layout, ps, k + 1, ps.len() as int);
                    }
                    return Err(e);
                },
            }
            k = k + 1;
        }
        let merged_updates = renderer.merge_updates(updates);
        let ghost us = updates_view(merged_updates@);
        let r = self.metadata_overlay.apply_committed(merged_updates.as_slice());
        proof {
            lemma_applied_views(old(self).metadata_overlay@, merged_updates@);
            assert forall|i: int| 0 <= i < merged_updates@.len() implies update_is_sector(#[trigger] merged_updates@[i]) == (
            us[i].1.len() == 512) by {
                match merged_updates@[i] {
                    CommittedMetadataUpdate::Sector { sector, data } => {},
                }
            }
            if all_sectors(us) {
                assert forall|i: int| 0 <= i < merged_updates@.len() implies update_is_sector(#[trigger] merged_updates@[i]) by {
                    assert(us[i].1.len() == 512);
                }
            }
            if r is Ok && !all_sectors(us) {
                let i = choose|i: int| 0 <= i < us.len() && !((#[trigger] us[i]).1.len() == 512);
                assert(update_is_sector(merged_updates@[i]));
            }
        }
        r
    }
}

/// Once one of the directories `ps[..k]` cannot be rendered, neither can the
/// longer lists.
proof fn lemma_dirs_updates_none(
    nodes: Seq<NodeView>,
    store: Seq<DirectoryRecord>,
    layout: DiskLayout,
    ps: Seq<Seq<char>>,
    k: int,
    n: int,
)
    requires
        dirs_updates(nodes, store, layout, ps, k) is None,
        k <= n,
    ensures
        dirs_updates(nodes, store, layout, ps, n) is None,
    decreases n - k,
{
    if k < n {
        lemma_dirs_updates_none(nodes, store, layout, ps, k, n - 1);
    }
}

} // verus!
