//! Resolution of closed exFAT write transactions into file system mutations.
use vstd::prelude::*;
use crate::error::{io_error, ErrorKind, IoError};
use crate::exfat::directory_parser::{EntryView, ParsedDirectoryEntry};
use crate::exfat::fat_state::spec_chain_from;
use crate::exfat::runtime_state::{node_at, ExfatRuntimeState};
use crate::exfat::sector_owner::SectorOwner;
use crate::exfat::transaction::{PendingReason, PendingTransaction, ResolveStatus, ResolvedTransaction, TransactionError, TransactionWrite};
use crate::exfat::directory_rewrite::{children_spec, patch_from, patch_image, plan_directory, plan_directory_rewrite, PatchFail};
use crate::exfat::directory_parser::{parse_entry_sets, spec_parse_entry_sets};
use crate::strings::chars_of;
use vstd::string::StringExecFns;
use crate::vfs::index::find_id;
use crate::vfs::mutation::{mutations_view, ChainView, ClusterChain, FileDataPatch, FsMutation, MutationView, NodeKind, PatchView};
use crate::vfs::node::{FileViewSpec, NodeId, NodeView};

verus! {

broadcast use vstd::std_specs::vec::group_vec_axioms;

/// Mathematical form of a transaction error.
pub enum TxErrorView {
    UnknownDirectoryOwner { sector: u64 },
    MissingDirectoryImage { parent: Seq<char> },
    DirectoryWriteBeforeStart { parent: Seq<char>, sector: u64 },
    UnsupportedDirectoryRewrite { parent: Seq<char> },
    BlockedPlaceholderRewrite { virtual_path: Seq<char> },
    UnresolvedClusterChain { first_cluster: u32, data_length: u64 },
}

/// The view of a transaction error.
pub open spec fn err_view(e: TransactionError) -> TxErrorView {
    match e {
        TransactionError::UnknownDirectoryOwner { sector } => TxErrorView::UnknownDirectoryOwner { sector },
        TransactionError::MissingDirectoryImage { parent } => TxErrorView::MissingDirectoryImage { parent: parent@ },
        TransactionError::DirectoryWriteBeforeStart { parent, sector } => TxErrorView::DirectoryWriteBeforeStart {
            parent: parent@,
            sector,
        },
        TransactionError::UnsupportedDirectoryRewrite { parent } => TxErrorView::UnsupportedDirectoryRewrite {
            parent: parent@,
        },
        TransactionError::BlockedPlaceholderRewrite { virtual_path } => TxErrorView::BlockedPlaceholderRewrite {
            virtual_path: virtual_path@,
        },
        TransactionError::UnresolvedClusterChain { first_cluster, data_length } => TxErrorView::UnresolvedClusterChain {
            first_cluster,
            data_length,
        },
    }
}

/// The first cluster an entry names, if any (zero means none).
pub open spec fn entry_first_cluster_spec(c: u32) -> Option<u32> {
    if c == 0 {
        None
    } else {
        Some(c)
    }
}

/// The kind of node an entry describes.
pub open spec fn entry_kind_spec(e: EntryView) -> NodeKind {
    if e.is_dir {
        NodeKind::Directory
    } else {
        NodeKind::File
    }
}

/// Clusters an entry of `len` bytes needs (at least one).
pub open spec fn required_clusters(len: u64) -> int {
    if len == 0 {
        1
    } else {
        (len + 4095) / 4096
    }
}

/// The cluster chain of an entry: none without a first cluster, the first
/// cluster alone when one cluster suffices, else the FAT chain cut to length.
pub open spec fn entry_chain_spec(fat: Map<u32, u32>, count: u32, fc: u32, len: u64) -> Result<Option<ChainView>, TxErrorView> {
    if fc == 0 {
        Ok(None)
    } else if required_clusters(len) == 1 {
        Ok(Some(ChainView { first_cluster: fc, clusters: seq![fc] }))
    } else {
        match spec_chain_from(fat, fc, count) {
            None => Err(TxErrorView::UnresolvedClusterChain { first_cluster: fc, data_length: len }),
            Some(c) => if c.len() < required_clusters(len) {
                Err(TxErrorView::UnresolvedClusterChain { first_cluster: fc, data_length: len })
            } else {
                Ok(Some(ChainView { first_cluster: fc, clusters: c.take(required_clusters(len)) }))
            },
        }
    }
}

/// The index of the first entry of `s`, from `j` on, with a key at least `k`.
pub open spec fn first_ge(s: Seq<(u64, Seq<u8>)>, k: u64, j: int) -> int
    decreases s.len() - j,
{
    if j < 0 || j >= s.len() {
        s.len() as int
    } else if s[j].0 >= k {
        j
    } else {
        first_ge(s, k, j + 1)
    }
}

/// `s` (ordered by key) with `k` set to `v`.
pub open spec fn sector_insert(s: Seq<(u64, Seq<u8>)>, k: u64, v: Seq<u8>) -> Seq<(u64, Seq<u8>)> {
    let p = first_ge(s, k, 0);
    if p < s.len() && s[p].0 == k {
        s.update(p, (k, v))
    } else {
        s.insert(p, (k, v))
    }
}

/// The free-cluster writes of `ws` into cluster `c`, ordered by sector, the
/// last write of a sector winning.
pub open spec fn cluster_sectors(ws: Seq<TransactionWrite>, c: u32) -> Seq<(u64, Seq<u8>)>
    decreases ws.len(),
{
    if ws.len() == 0 {
        seq![]
    } else {
        let rest = cluster_sectors(ws.drop_last(), c);
        match ws.last() {
            TransactionWrite::FreeCluster { sector, owner: SectorOwner::FreeCluster { cluster }, data } => if cluster == c {
                sector_insert(rest, sector, data@)
            } else {
                rest
            },
            _ => rest,
        }
    }
}

/// The concatenated values of `s`.
pub open spec fn concat_values(s: Seq<(u64, Seq<u8>)>) -> Seq<u8>
    decreases s.len(),
{
    if s.len() == 0 {
        seq![]
    } else {
        concat_values(s.drop_last()) + s.last().1
    }
}

/// The data a transaction wrote into the free cluster `c`, in sector order.
pub open spec fn free_cluster_data_spec(ws: Seq<TransactionWrite>, c: u32) -> Option<Seq<u8>> {
    if c == 0 || cluster_sectors(ws, c).len() == 0 {
        None
    } else {
        Some(concat_values(cluster_sectors(ws, c)))
    }
}

/// A patch for each free-cluster write into cluster `fc`, at offset 0, cut to
/// `len` bytes.
pub open spec fn raw_patches(ws: Seq<TransactionWrite>, path: Seq<char>, fc: u32, len: u64) -> Seq<PatchView>
    decreases ws.len(),
{
    if ws.len() == 0 {
        seq![]
    } else {
        let rest = raw_patches(ws.drop_last(), path, fc, len);
        match ws.last() {
            TransactionWrite::FreeCluster { owner: SectorOwner::FreeCluster { cluster }, data, .. } => if cluster == fc {
                rest.push(PatchView { virtual_path: path, offset: 0, data: data@.take(if len < data@.len() { len as int } else { data@.len() as int }) })
            } else {
                rest
            },
            _ => rest,
        }
    }
}

/// The total length of the patches' data.
pub open spec fn patches_len(p: Seq<PatchView>) -> int
    decreases p.len(),
{
    if p.len() == 0 {
        0
    } else {
        patches_len(p.drop_last()) + p.last().data.len()
    }
}

/// The data patches for a file at `path` of `len` bytes from cluster `fc`: the
/// writes into its first cluster, at most as many as its sectors when they
/// exceed its length.
pub open spec fn data_patches_spec(ws: Seq<TransactionWrite>, path: Seq<char>, fc: u32, len: u64) -> Seq<PatchView> {
    if fc == 0 || len == 0 {
        seq![]
    } else {
        let out = raw_patches(ws, path, fc, len);
        if patches_len(out) > len {
            out.take(if ((len + 511) / 512) < out.len() { (len + 511) / 512 } else { out.len() as int })
        } else {
            out
        }
    }
}

/// The node at `path` shows the blocked placeholder.
pub open spec fn blocked_path(nodes: Seq<NodeView>, path: Seq<char>) -> bool {
    match node_at(nodes, path) {
        Some(n) => n.file_view matches Some(FileViewSpec::Blocked { .. }),
        None => false,
    }
}

/// The vanished child `m` may have been renamed to the new entry `e`: same kind,
/// same first cluster.
pub open spec fn rename_candidate(nodes: Seq<NodeView>, m: (Seq<char>, Seq<char>, NodeKind), e: EntryView) -> bool {
    m.2 == entry_kind_spec(e) && match node_at(nodes, m.1) {
        Some(n) => n.first_cluster == entry_first_cluster_spec(e.first_cluster),
        None => false,
    }
}

/// The new entry `e` is the host's cached rename of the blocked placeholder `m`.
pub open spec fn cached_blocked_rename(nodes: Seq<NodeView>, m: (Seq<char>, Seq<char>, NodeKind), e: EntryView) -> bool {
    rename_candidate(nodes, m, e) && match node_at(nodes, m.1) {
        Some(n) => (n.file_view matches Some(FileViewSpec::Blocked { .. })) && n.size == e.data_length,
        None => false,
    }
}

/// The existing entry `e` of `parent` differs from its node in first cluster
/// (or, for a file, in size).
pub open spec fn metadata_changed(nodes: Seq<NodeView>, parent: Seq<char>, e: EntryView) -> bool {
    match node_at(nodes, crate::strings::join_virtual_path_spec(parent, e.name)) {
        None => false,
        Some(n) => if e.is_dir {
            entry_first_cluster_spec(e.first_cluster) != n.first_cluster
        } else {
            entry_first_cluster_spec(e.first_cluster) != n.first_cluster || e.data_length != n.size
        },
    }
}

/// The first cluster of an entry, if any.
pub fn entry_first_cluster(c: u32) -> (r: Option<u32>)
    ensures
        r == entry_first_cluster_spec(c),
{
    if c == 0 {
        None
    } else {
        Some(c)
    }
}

/// The cluster chain of an entry of `len` bytes from `fc`.
pub fn resolve_entry_chain(state: &ExfatRuntimeState, fc: u32, len: u64) -> (r: Result<Option<ClusterChain>, TransactionError>)
    ensures
        match entry_chain_spec(state.spec_metadata().spec_fat(), state.spec_metadata().spec_fat_count(), fc, len) {
            Ok(c) => r matches Ok(x) && crate::vfs::mutation::chain_view(x) == c,
            Err(e) => r matches Err(x) && err_view(x) == e,
        },
{
    if fc == 0 {
        return Ok(None);
    }
    let required: u64 = if len == 0 { 1 } else { len / 4096 + if len % 4096 == 0 { 0 } else { 1 } };
    assert(required == required_clusters(len));
    if required == 1 {
        let mut v: Vec<u32> = Vec::new();
        v.push(fc);
        assert(v@ =~= seq![fc]);
        return Ok(Some(ClusterChain { first_cluster: fc, clusters: v }));
    }
    let chain = match state.metadata_chain_from(fc) {
        Ok(c) => c,
        Err(_) => {
            return Err(TransactionError::UnresolvedClusterChain { first_cluster: fc, data_length: len });
        },
    };
    if (chain.len() as u64) < required {
        return Err(TransactionError::UnresolvedClusterChain { first_cluster: fc, data_length: len });
    }
    let mut out: Vec<u32> = Vec::new();
    let mut i: usize = 0;
    while (i as u64) < required
        invariant
            i <= required <= chain@.len(),
            out@ == chain@.take(i as int),
        decreases required - i,
    {
        out.push(chain[i]);
        i = i + 1;
        assert(out@ =~= chain@.take(i as int));
    }
    Ok(Some(ClusterChain { first_cluster: fc, clusters: out }))
}

/// Sets `k` to `v` in the key-ordered `s`.
pub fn insert_sector(s: &mut Vec<(u64, Vec<u8>)>, k: u64, v: Vec<u8>)
    ensures
        final(s)@.map_values(|e: (u64, Vec<u8>)| (e.0, e.1@)) == sector_insert(
            old(s)@.map_values(|e: (u64, Vec<u8>)| (e.0, e.1@)),
            k,
            v@,
        ),
{
    let ghost sv = s@.map_values(|e: (u64, Vec<u8>)| (e.0, e.1@));
    let mut p: usize = 0;
    while p < s.len() && s[p].0 < k
        invariant
            p <= s@.len(),
            sv == s@.map_values(|e: (u64, Vec<u8>)| (e.0, e.1@)),
            first_ge(sv, k, 0) == first_ge(sv, k, p as int),
        decreases s@.len() - p,
    {
        p = p + 1;
    }
    assert(first_ge(sv, k, 0) == p);
    let ghost vv = v@;
    if p < s.len() && s[p].0 == k {
        s.set(p, (k, v));
        assert(s@.map_values(|e: (u64, Vec<u8>)| (e.0, e.1@)) =~= sv.update(p as int, (k, vv)));
    } else {
        s.insert(p, (k, v));
        assert(s@.map_values(|e: (u64, Vec<u8>)| (e.0, e.1@)) =~= sv.insert(p as int, (k, vv)));
    }
}

/// The data the transaction wrote into the free cluster `cluster`.
pub fn free_cluster_data(tx: &PendingTransaction, cluster: u32) -> (r: Option<Vec<u8>>)
    ensures
        match free_cluster_data_spec(tx@, cluster) {
            Some(d) => r matches Some(x) && x@ == d,
            None => r is None,
        },
{
    if cluster == 0 {
        return None;
    }
    let ws = tx.writes();
    let mut sectors: Vec<(u64, Vec<u8>)> = Vec::new();
    let mut i: usize = 0;
    assert(ws@.take(0) =~= Seq::<TransactionWrite>::empty());
    while i < ws.len()
        invariant
            i <= ws@.len(),
            ws@ == tx@,
            sectors@.map_values(|e: (u64, Vec<u8>)| (e.0, e.1@)) == cluster_sectors(ws@.take(i as int), cluster),
        decreases ws@.len() - i,
    {
        assert(ws@.take(i + 1).drop_last() =~= ws@.take(i as int));
        assert(ws@.take(i + 1).last() == ws@[i as int]);
        match &ws[i] {
            TransactionWrite::FreeCluster { sector, owner: SectorOwner::FreeCluster { cluster: wc }, data } => {
                if *wc == cluster {
                    insert_sector(&mut sectors, *sector, vstd::slice::slice_to_vec(data.as_slice()));
                }
            },
            _ => {},
        }
        i = i + 1;
    }
    assert(ws@.take(ws@.len() as int) =~= ws@);
    let ghost cs = cluster_sectors(tx@, cluster);
    if sectors.len() == 0 {
        return None;
    }
    let mut out: Vec<u8> = Vec::new();
    let mut j: usize = 0;
    while j < sectors.len()
        invariant
            j <= sectors@.len(),
            sectors@.map_values(|e: (u64, Vec<u8>)| (e.0, e.1@)) == cs,
            out@ == concat_values(cs.take(j as int)),
        decreases sectors@.len() - j,
    {
        assert(cs.take(j + 1).drop_last() =~= cs.take(j as int));
        assert(cs.take(j + 1).last().1 == sectors@[j as int].1@);
        out.extend_from_slice(sectors[j].1.as_slice());
        j = j + 1;
    }
    assert(cs.take(cs.len() as int) =~= cs);
    Some(out)
}

/// The data patches for the file at `virtual_path` of `data_length` bytes from
/// cluster `first_cluster`.
pub fn collect_data_patches(tx: &PendingTransaction, virtual_path: &str, first_cluster: u32, data_length: u64) -> (r: Vec<
    FileDataPatch,
>)
    ensures
        crate::vfs::mutation::patches_view(r@) == data_patches_spec(tx@, virtual_path@, first_cluster, data_length),
{
    if first_cluster == 0 || data_length == 0 {
        let e: Vec<FileDataPatch> = Vec::new();
        assert(crate::vfs::mutation::patches_view(e@) =~= Seq::<PatchView>::empty());
        return e;
    }
    let ws = tx.writes();
    let mut out: Vec<FileDataPatch> = Vec::new();
    let mut total: u64 = 0;
    let mut exceeded = false;
    let mut i: usize = 0;
    assert(ws@.take(0) =~= Seq::<TransactionWrite>::empty());
    assert(crate::vfs::mutation::patches_view(out@) =~= Seq::<PatchView>::empty());
    while i < ws.len()
        invariant
            i <= ws@.len(),
            ws@ == tx@,
            crate::vfs::mutation::patches_view(out@) == raw_patches(ws@.take(i as int), virtual_path@, first_cluster, data_length),
            exceeded == (patches_len(raw_patches(ws@.take(i as int), virtual_path@, first_cluster, data_length)) > data_length),
            !exceeded ==> total == patches_len(raw_patches(ws@.take(i as int), virtual_path@, first_cluster, data_length)),
        decreases ws@.len() - i,
    {
        assert(ws@.take(i + 1).drop_last() =~= ws@.take(i as int));
        assert(ws@.take(i + 1).last() == ws@[i as int]);
        let ghost rp = raw_patches(ws@.take(i as int), virtual_path@, first_cluster, data_length);
        match &ws[i] {
            TransactionWrite::FreeCluster { owner: SectorOwner::FreeCluster { cluster }, data, .. } => {
                if *cluster == first_cluster {
                    let take: usize = if data_length < data.len() as u64 { data_length as usize } else { data.len() };
                    let part = vstd::slice::slice_subrange(data.as_slice(), 0, take);
                    let ghost prev = crate::vfs::mutation::patches_view(out@);
                    let patch = FileDataPatch {
                        virtual_path: String::from_str(virtual_path),
                        offset: 0,
                        data: vstd::slice::slice_to_vec(part),
                    };
                    out.push(patch);
                    assert(part@ =~= data@.take(take as int));
                    let ghost q = PatchView { virtual_path: virtual_path@, offset: 0, data: data@.take(take as int) };
                    assert(crate::vfs::mutation::patches_view(out@) =~= prev.push(q));
                    assert(raw_patches(ws@.take(i + 1), virtual_path@, first_cluster, data_length) == rp.push(q));
                    assert(rp.push(q).drop_last() =~= rp);
                    assert(patches_len(rp.push(q)) == patches_len(rp) + take);
                    if !exceeded {
                        if take as u64 > data_length - total {
                            exceeded = true;
                        } else {
                            total = total + take as u64;
                        }
                    }
                } else {
                    assert(raw_patches(ws@.take(i + 1), virtual_path@, first_cluster, data_length) == rp);
                }
            },
            _ => {
                assert(raw_patches(ws@.take(i + 1), virtual_path@, first_cluster, data_length) == rp);
            },
        }
        i = i + 1;
    }
    assert(ws@.take(ws@.len() as int) =~= ws@);
    let ghost raw = crate::vfs::mutation::patches_view(out@);
    assert(raw == raw_patches(tx@, virtual_path@, first_cluster, data_length));
    assert(exceeded == (patches_len(raw) > data_length));
    let ol = out.len();
    assert(raw.len() == ol);
    if exceeded {
        let keep: u64 = data_length / 512 + if data_length % 512 == 0 { 0 } else { 1 };
        assert(keep == (data_length + 511) / 512);
        if keep <= usize::MAX as u64 && (keep as usize) < out.len() {
            out.truncate(keep as usize);
            assert(crate::vfs::mutation::patches_view(out@) =~= raw.take(keep as int));
            assert(crate::vfs::mutation::patches_view(out@) == data_patches_spec(tx@, virtual_path@, first_cluster, data_length));
        } else {
            assert(raw.take(raw.len() as int) =~= raw);
            assert(crate::vfs::mutation::patches_view(out@) == data_patches_spec(tx@, virtual_path@, first_cluster, data_length));
        }
    } else {
        assert(crate::vfs::mutation::patches_view(out@) == data_patches_spec(tx@, virtual_path@, first_cluster, data_length));
    }
    out
}

/// The path of the directory whose data a sector of `owner` holds.
pub open spec fn parent_of_owner(nodes: Seq<NodeView>, owner: SectorOwner) -> Option<Seq<char>> {
    match owner {
        SectorOwner::RootDirectory => Some(seq!['/']),
        SectorOwner::DirectoryData { node_id } => match find_id(nodes, NodeId(node_id)) {
            Some(i) => Some(nodes[i].virtual_path),
            None => None,
        },
        _ => None,
    }
}

/// Lexicographic order of character sequences (the order of `String`).
pub open spec fn seq_lt(a: Seq<char>, b: Seq<char>) -> bool
    decreases a.len(),
{
    if a.len() == 0 {
        b.len() > 0
    } else if b.len() == 0 {
        false
    } else if a[0] != b[0] {
        (a[0] as int) < (b[0] as int)
    } else {
        seq_lt(a.drop_first(), b.drop_first())
    }
}

/// Directory writes grouped by directory path.
pub type Groups = Seq<(Seq<char>, Seq<(u64, Seq<u8>)>)>;

/// The index of the first group of `g`, from `j` on, whose path is not below `p`.
pub open spec fn first_not_less(g: Groups, p: Seq<char>, j: int) -> int
    decreases g.len() - j,
{
    if j < 0 || j >= g.len() {
        g.len() as int
    } else if !seq_lt(g[j].0, p) {
        j
    } else {
        first_not_less(g, p, j + 1)
    }
}

/// `g` (ordered by path) with the write of `data` to `sector` of directory `p`.
pub open spec fn group_insert(g: Groups, p: Seq<char>, sector: u64, data: Seq<u8>) -> Groups {
    let i = first_not_less(g, p, 0);
    if i < g.len() && g[i].0 == p {
        g.update(i, (p, sector_insert(g[i].1, sector, data)))
    } else {
        g.insert(i, (p, seq![(sector, data)]))
    }
}

/// The directory writes of `ws` grouped by directory (in path order, sectors in
/// order, the last write of a sector winning), or the sector of the first
/// directory write whose directory is unknown.
pub open spec fn group_writes(nodes: Seq<NodeView>, ws: Seq<TransactionWrite>) -> Result<Groups, u64>
    decreases ws.len(),
{
    if ws.len() == 0 {
        Ok(seq![])
    } else {
        match group_writes(nodes, ws.drop_last()) {
            Err(s) => Err(s),
            Ok(g) => match ws.last() {
                TransactionWrite::Directory { sector, owner, data } => match parent_of_owner(nodes, owner) {
                    None => Err(sector),
                    Some(p) => Ok(group_insert(g, p, sector, data@)),
                },
                _ => Ok(g),
            },
        }
    }
}

/// The view of a list of sector writes.
pub open spec fn sectors_view(v: Seq<(u64, Vec<u8>)>) -> Seq<(u64, Seq<u8>)> {
    v.map_values(|e: (u64, Vec<u8>)| (e.0, e.1@))
}

/// The view of grouped directory writes.
pub open spec fn groups_view(v: Seq<(String, Vec<(u64, Vec<u8>)>)>) -> Groups {
    v.map_values(|g: (String, Vec<(u64, Vec<u8>)>)| (g.0@, sectors_view(g.1@)))
}

/// Whether `a` sorts before `b`.
pub fn str_lt(a: &str, b: &str) -> (r: bool)
    ensures
        r == seq_lt(a@, b@),
{
    let ac = chars_of(a);
    let bc = chars_of(b);
    let mut i: usize = 0;
    assert(a@.skip(0) =~= a@ && b@.skip(0) =~= b@);
    while i < ac.len() && i < bc.len()
        invariant
            i <= ac@.len(),
            i <= bc@.len(),
            ac@ == a@,
            bc@ == b@,
            seq_lt(a@, b@) == seq_lt(a@.skip(i as int), b@.skip(i as int)),
        decreases ac@.len() - i,
    {
        if ac[i] != bc[i] {
            assert(a@.skip(i as int)[0] == ac@[i as int] && b@.skip(i as int)[0] == bc@[i as int]);
            return ac[i] < bc[i];
        }
        assert(a@.skip(i as int).drop_first() =~= a@.skip(i + 1));
        assert(b@.skip(i as int).drop_first() =~= b@.skip(i + 1));
        i = i + 1;
    }
    i < bc.len()
}

/// Adds the write of `data` to `sector` of directory `p` to the groups.
fn insert_group(g: &mut Vec<(String, Vec<(u64, Vec<u8>)>)>, p: String, sector: u64, data: Vec<u8>)
    ensures
        groups_view(final(g)@) == group_insert(groups_view(old(g)@), p@, sector, data@),
{
    let ghost gv = groups_view(g@);
    let mut i: usize = 0;
    while i < g.len() && str_lt(g[i].0.as_str(), p.as_str())
        invariant
            i <= g@.len(),
            gv == groups_view(g@),
            first_not_less(gv, p@, 0) == first_not_less(gv, p@, i as int),
        decreases g@.len() - i,
    {
        assert(gv[i as int].0 == g@[i as int].0@);
        i = i + 1;
    }
    proof {
        if i < g@.len() {
            assert(gv[i as int].0 == g@[i as int].0@);
        }
    }
    assert(first_not_less(gv, p@, 0) == i);
    let ghost dv = data@;
    if i < g.len() && crate::strings::str_eq(g[i].0.as_str(), p.as_str()) {
        let mut entry = g.remove(i);
        let ghost old_sectors = sectors_view(entry.1@);
        assert(gv[i as int] == (entry.0@, old_sectors));
        insert_sector(&mut entry.1, sector, data);
        let ghost ev = (entry.0@, sectors_view(entry.1@));
        g.insert(i, entry);
        assert(groups_view(g@) =~= gv.update(i as int, ev));
    } else {
        let mut one: Vec<(u64, Vec<u8>)> = Vec::new();
        one.push((sector, data));
        assert(sectors_view(one@) =~= seq![(sector, dv)]);
        let ghost ev = (p@, sectors_view(one@));
        g.insert(i, (p, one));
        assert(groups_view(g@) =~= gv.insert(i as int, ev));
    }
}

/// The directory writes of `tx` grouped by directory, or the sector of the first
/// directory write whose directory is unknown.
pub fn group_directory_writes(tx: &PendingTransaction, state: &ExfatRuntimeState) -> (r: Result<
    Vec<(String, Vec<(u64, Vec<u8>)>)>,
    u64,
>)
    ensures
        match group_writes(state.spec_nodes(), tx@) {
            Ok(g) => r matches Ok(v) && groups_view(v@) == g,
            Err(s) => r == Err::<Vec<(String, Vec<(u64, Vec<u8>)>)>, u64>(s),
        },
{
    let ws = tx.writes();
    let mut g: Vec<(String, Vec<(u64, Vec<u8>)>)> = Vec::new();
    let mut i: usize = 0;
    assert(ws@.take(0) =~= Seq::<TransactionWrite>::empty());
    assert(groups_view(g@) =~= Seq::<(Seq<char>, Seq<(u64, Seq<u8>)>)>::empty());
    while i < ws.len()
        invariant
            i <= ws@.len(),
            ws@ == tx@,
            group_writes(state.spec_nodes(), ws@.take(i as int)) == Ok::<Groups, u64>(groups_view(g@)),
        decreases ws@.len() - i,
    {
        assert(ws@.take(i + 1).drop_last() =~= ws@.take(i as int));
        assert(ws@.take(i + 1).last() == ws@[i as int]);
        match &ws[i] {
            TransactionWrite::Directory { sector, owner, data } => {
                match state.parent_path_for_directory_owner(owner) {
                    None => {
                        proof {
                            lemma_group_err_extends(state.spec_nodes(), ws@, i + 1);
                        }
                        return Err(*sector);
                    },
                    Some(parent) => {
                        insert_group(&mut g, parent, *sector, vstd::slice::slice_to_vec(data.as_slice()));
                    },
                }
            },
            _ => {},
        }
        i = i + 1;
    }
    assert(ws@.take(ws@.len() as int) =~= ws@);
    Ok(g)
}

/// Once grouping a prefix fails, grouping everything fails the same way.
pub proof fn lemma_group_err_extends(nodes: Seq<NodeView>, ws: Seq<TransactionWrite>, i: int)
    requires
        0 <= i <= ws.len(),
        group_writes(nodes, ws.take(i)) is Err,
    ensures
        group_writes(nodes, ws) == group_writes(nodes, ws.take(i)),
    decreases ws.len() - i,
{
    if i < ws.len() {
        assert(ws.take(i + 1).drop_last() =~= ws.take(i));
        lemma_group_err_extends(nodes, ws, i + 1);
    } else {
        assert(ws.take(i) =~= ws);
    }
}

/// Mathematical form of the outcome of resolving a transaction.
pub enum ResolveView {
    Complete(Seq<MutationView>),
    Incomplete(u64),
    Invalid(TxErrorView),
    IoFail,
    /// A directory write at this sector is shorter than its part of the image.
    ShortWrite(u64),
}

/// What the directory writes `sectors` to the directory `parent` stand for.
pub open spec fn group_result(
    state: ExfatRuntimeState,
    ws: Seq<TransactionWrite>,
    parent: Seq<char>,
    sectors: Seq<(u64, Seq<u8>)>,
    fuel: nat,
) -> ResolveView {
    match state.spec_directory_image(parent) {
        Err(_) => ResolveView::IoFail,
        Ok(None) => ResolveView::Invalid(TxErrorView::MissingDirectoryImage { parent }),
        Ok(Some((fs, data))) => match patch_from(data, fs, sectors, 0) {
            Err(PatchFail::BeforeStart(s)) => ResolveView::Invalid(TxErrorView::DirectoryWriteBeforeStart { parent, sector: s }),
            Err(PatchFail::Waiting(s)) => ResolveView::Incomplete(s),
            Err(PatchFail::Short(s)) => ResolveView::ShortWrite(s),
            Ok(d) => if d.len() == 0 {
                ResolveView::Complete(seq![])
            } else {
                match spec_parse_entry_sets(d) {
                    None => ResolveView::IoFail,
                    Some(es) => match plan_directory(state, ws, parent, children_spec(state, parent), es, fuel) {
                        Ok(ms) => ResolveView::Complete(ms),
                        Err(x) => ResolveView::Invalid(x),
                    },
                }
            },
        },
    }
}

/// What the grouped directory writes `g` stand for, group by group.
pub open spec fn groups_result(state: ExfatRuntimeState, ws: Seq<TransactionWrite>, g: Groups, fuel: nat) -> ResolveView
    decreases g.len(),
{
    if g.len() == 0 {
        ResolveView::Complete(seq![])
    } else {
        match groups_result(state, ws, g.drop_last(), fuel) {
            ResolveView::Complete(ms) => match group_result(state, ws, g.last().0, g.last().1, fuel) {
                ResolveView::Complete(ms2) => ResolveView::Complete(ms + ms2),
                other => other,
            },
            other => other,
        }
    }
}

/// What a closed transaction stands for against `state`.
pub open spec fn resolve_spec(state: ExfatRuntimeState, ws: Seq<TransactionWrite>) -> ResolveView {
    match group_writes(state.spec_nodes(), ws) {
        Err(s) => ResolveView::Invalid(TxErrorView::UnknownDirectoryOwner { sector: s }),
        Ok(g) => groups_result(state, ws, g, ws.len() as nat),
    }
}

/// Once a prefix of the groups stops, all of them stop the same way.
pub proof fn lemma_groups_stop_extends(state: ExfatRuntimeState, ws: Seq<TransactionWrite>, g: Groups, fuel: nat, i: int)
    requires
        0 <= i <= g.len(),
        !(groups_result(state, ws, g.take(i), fuel) is Complete),
    ensures
        groups_result(state, ws, g, fuel) == groups_result(state, ws, g.take(i), fuel),
    decreases g.len() - i,
{
    if i < g.len() {
        assert(g.take(i + 1).drop_last() =~= g.take(i));
        lemma_groups_stop_extends(state, ws, g, fuel, i + 1);
    } else {
        assert(g.take(i) =~= g);
    }
}

/// Resolves closed exFAT write transactions into file system mutations.
#[derive(Debug, Default, Clone)]
pub struct TransactionResolver;

/// Appends the mutations the directory writes `sectors` to `parent` stand for;
/// `Some` when they stop the resolution instead.
fn resolve_group(
    state: &ExfatRuntimeState,
    tx: &PendingTransaction,
    parent: &str,
    sectors: &Vec<(u64, Vec<u8>)>,
    fuel: u64,
    mutations: &mut Vec<FsMutation>,
) -> (r: Result<Option<ResolveStatus>, IoError>)
    requires
        state.wf(),
    ensures
        match group_result(*state, tx@, parent@, sectors_view(sectors@), fuel as nat) {
            ResolveView::Complete(ms) => r matches Ok(None) && mutations_view(final(mutations)@) == mutations_view(
                old(mutations)@,
            ) + ms,
            ResolveView::Incomplete(s) => r matches Ok(Some(ResolveStatus::Incomplete(PendingReason::WaitingForDirectoryData { sector }))) && sector
                == s,
            ResolveView::Invalid(e) => r matches Ok(Some(ResolveStatus::Invalid(x))) && err_view(x) == e,
            ResolveView::IoFail => r matches Err(e) && e.kind == ErrorKind::InvalidData,
            ResolveView::ShortWrite(_) => r matches Err(e) && e.kind == ErrorKind::InvalidInput,
        },
{
    let (fs, mut data) = match state.directory_image(parent) {
        Err(e) => {
            return Err(e);
        },
        Ok(None) => {
            return Ok(Some(ResolveStatus::Invalid(TransactionError::MissingDirectoryImage { parent: String::from_str(parent) })));
        },
        Ok(Some(x)) => x,
    };
    match patch_image(&mut data, fs, sectors) {
        Err(PatchFail::BeforeStart(s)) => {
            return Ok(
                Some(ResolveStatus::Invalid(TransactionError::DirectoryWriteBeforeStart { parent: String::from_str(parent), sector: s })),
            );
        },
        Err(PatchFail::Waiting(s)) => {
            return Ok(Some(ResolveStatus::Incomplete(PendingReason::WaitingForDirectoryData { sector: s })));
        },
        Err(PatchFail::Short(_)) => {
            return Err(io_error(ErrorKind::InvalidInput, "directory sector write shorter than its part of the image"));
        },
        Ok(()) => {},
    }
    if data.len() == 0 {
        assert(mutations_view(mutations@) + Seq::<MutationView>::empty() =~= mutations_view(mutations@));
        return Ok(None);
    }
    let es = match parse_entry_sets(data.as_slice()) {
        Ok(v) => v,
        Err(e) => {
            return Err(e);
        },
    };
    match plan_directory_rewrite(state, tx, parent, &es, fuel, mutations) {
        Ok(()) => Ok(None),
        Err(x) => Ok(Some(ResolveStatus::Invalid(x))),
    }
}

impl TransactionResolver {
    /// A resolver.
    pub fn new() -> (r: Self) {
        TransactionResolver
    }

    /// Resolves the closed transaction `tx` against `state`: the mutations it
    /// stands for, that it waits for more directory data, or why it is invalid.
    pub fn resolve_closed(&self, tx: &PendingTransaction, state: &ExfatRuntimeState) -> (r: Result<ResolveStatus, IoError>)
        requires
            state.wf(),
        ensures
            match resolve_spec(*state, tx@) {
                ResolveView::Complete(ms) => r matches Ok(ResolveStatus::Complete(t)) && mutations_view(t.mutations@) == ms,
                ResolveView::Incomplete(s) => r matches Ok(ResolveStatus::Incomplete(PendingReason::WaitingForDirectoryData { sector })) && sector
                    == s,
                ResolveView::Invalid(e) => r matches Ok(ResolveStatus::Invalid(x)) && err_view(x) == e,
                ResolveView::IoFail => r matches Err(e) && e.kind == ErrorKind::InvalidData,
                ResolveView::ShortWrite(_) => r matches Err(e) && e.kind == ErrorKind::InvalidInput,
            },
    {
        let groups = match group_directory_writes(tx, state) {
            Err(s) => {
                return Ok(ResolveStatus::Invalid(TransactionError::UnknownDirectoryOwner { sector: s }));
            },
            Ok(g) => g,
        };
        let ghost gv = groups_view(groups@);
        let fuel: u64 = tx.writes().len() as u64;
        let mut mutations: Vec<FsMutation> = Vec::new();
        let mut i: usize = 0;
        assert(gv.take(0) =~= Seq::<(Seq<char>, Seq<(u64, Seq<u8>)>)>::empty());
        assert(mutations_view(mutations@) =~= Seq::<MutationView>::empty());
        while i < groups.len()
            invariant
                i <= groups@.len(),
                gv == groups_view(groups@),
                group_writes(state.spec_nodes(), tx@) == Ok::<Groups, u64>(gv),
                fuel == tx@.len(),
                state.wf(),
                groups_result(*state, tx@, gv.take(i as int), fuel as nat) == ResolveView::Complete(mutations_view(mutations@)),
            decreases groups@.len() - i,
        {
            assert(gv.take(i + 1).drop_last() =~= gv.take(i as int));
            assert(gv.take(i + 1).last() == gv[i as int]);
            assert(gv[i as int] == (groups@[i as int].0@, sectors_view(groups@[i as int].1@)));
            let ghost before = mutations_view(mutations@);
            match resolve_group(state, tx, groups[i].0.as_str(), &groups[i].1, fuel, &mut mutations) {
                Err(e) => {
                    proof {
                        lemma_groups_stop_extends(*state, tx@, gv, fuel as nat, i + 1);
                    }
                    return Err(e);
                },
                Ok(Some(st)) => {
                    proof {
                        lemma_groups_stop_extends(*state, tx@, gv, fuel as nat, i + 1);
                    }
                    return Ok(st);
                },
                Ok(None) => {},
            }
            i = i + 1;
        }
        assert(gv.take(gv.len() as int) =~= gv);
        Ok(ResolveStatus::Complete(ResolvedTransaction { mutations }))
    }
}

} // verus!
