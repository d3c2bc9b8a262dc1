//! Runtime exFAT state built from the controlled USB tree: the VFS index, the
//! generated volume, the authoritative metadata and the committed overlay.
use vstd::prelude::*;

pub mod commit;
pub mod write;
pub mod assembly;
use crate::error::{io_error, ErrorKind, IoError};
use crate::exfat::bitmap_state::BitmapState;
use crate::exfat::directory_store::{first_with_path, DirectoryRecord, DirectoryStore};
use crate::exfat::fat_state::FatState;
use crate::exfat::sector_owner::SectorOwnerMap;
use crate::exfat::volume::{gen_layout, gen_plan, range_of, tree_builder, FileSectorView};
use crate::exfat::volume_plan::{dirs_apart, file_node, files_inside, in_file, lemma_volume_plan, volume_dirs, volume_fits};
use crate::exfat::volume::{file_clusters_spec, ranges_view, MappingView};
use crate::exfat::runtime_state::assembly::{
    alloc_owned, lemma_named_owner, lemma_push_range, lemma_push_ranges, lemma_sec, lemma_sec_outside, lemma_sectors_in_clusters,
    lemma_set_of_member, ranges_named, records_from, records_owned, sec, taken_owner,
};
use crate::exfat::metadata_state::{dir_owner_ok, file_ranges, set_of};
use crate::exfat::bitmap_state::cluster_in_range;
use crate::exfat::sector_owner::OwnerRange;
use crate::vfs::index::placeholder_size;
use crate::layout::{BOOT_REGION_SECTORS, FIRST_CLUSTER, PARTITION_OFFSET_SECTORS};
use crate::types::ControlledEntry;
use crate::vfs::index::spec_from_tree;
use crate::vfs::mutation::ClusterChain;
use vstd::string::StringExecFns;
use crate::exfat::fat_state::spec_chain_from;
use crate::exfat::metadata_overlay::MetadataOverlay;
use crate::exfat::metadata_state::ExfatMetadataState;
use crate::exfat::sector_owner::SectorOwner;
use crate::exfat::transaction::{PendingTransaction, TransactionWrite};
use crate::exfat::volume::VirtualVolume;
use crate::layout::DiskLayout;
use crate::types::{PolicySnapshot, SectorContent};
use crate::vfs::index::{find_id, find_path, forest_found, keeps_nodes, same_place, lemma_find_path_in_kept, lemma_built_root, lemma_built_tree_lookup, lemma_forest_found_kept, VfsIndex};
use crate::vfs::mutation::NodeKind;
use crate::vfs::node::{NodeId, NodeView, VfsNode, VfsNodeKind};

verus! {

broadcast use vstd::std_specs::vec::group_vec_axioms;

/// The runtime state of a published virtual exFAT volume.
pub struct ExfatRuntimeState {
    index: VfsIndex,
    volume: VirtualVolume,
    metadata: ExfatMetadataState,
    metadata_overlay: MetadataOverlay,
    snapshot: PolicySnapshot,
    mount_root: String,
    pending_tx: PendingTransaction,
    next_tx_id: u64,
}

/// The node with the id of the first node at `path`.
pub open spec fn node_at(nodes: Seq<NodeView>, path: Seq<char>) -> Option<NodeView> {
    match find_path(nodes, path) {
        Some(i) => match find_id(nodes, nodes[i].id) {
            Some(k) => Some(nodes[k]),
            None => None,
        },
        None => None,
    }
}

/// The kind of mutation target a node is.
pub open spec fn node_kind(k: VfsNodeKind) -> NodeKind {
    match k {
        VfsNodeKind::File => NodeKind::File,
        VfsNodeKind::Directory => NodeKind::Directory,
    }
}

/// `(name, path, kind)` of the nodes with the ids `ids` (missing ones skipped).
pub open spec fn children_of(nodes: Seq<NodeView>, ids: Seq<NodeId>) -> Seq<(Seq<char>, Seq<char>, NodeKind)>
    decreases ids.len(),
{
    if ids.len() == 0 {
        seq![]
    } else {
        let rest = children_of(nodes, ids.drop_last());
        match find_id(nodes, ids.last()) {
            Some(k) => rest.push((nodes[k].name, nodes[k].virtual_path, node_kind(nodes[k].kind))),
            None => rest,
        }
    }
}

/// The bytes a directory read sees for `sector`: the committed overlay, else the
/// generated metadata, else zeros.
pub open spec fn image_sector(ov: Map<u64, Seq<u8>>, meta: Map<u64, Seq<u8>>, total: u64, s: u64) -> Seq<u8> {
    if ov.contains_key(s) {
        ov[s]
    } else if s < total && meta.contains_key(s) {
        meta[s]
    } else {
        crate::bytes::zeros(512)
    }
}

/// The image of the first `k` sectors of cluster `c`.
pub open spec fn cluster_image(ov: Map<u64, Seq<u8>>, meta: Map<u64, Seq<u8>>, layout: DiskLayout, c: u32, k: int) -> Seq<u8>
    decreases k,
{
    if k <= 0 {
        seq![]
    } else {
        cluster_image(ov, meta, layout, c, k - 1) + image_sector(
            ov,
            meta,
            layout.total_sectors,
            (layout.spec_cluster_to_sector(c as int) + k - 1) as u64,
        )
    }
}

/// The image of the clusters `cs[..n]`.
pub open spec fn clusters_image(ov: Map<u64, Seq<u8>>, meta: Map<u64, Seq<u8>>, layout: DiskLayout, cs: Seq<u32>, n: int) -> Seq<u8>
    decreases n,
{
    if n <= 0 || n > cs.len() {
        seq![]
    } else {
        clusters_image(ov, meta, layout, cs, n - 1) + cluster_image(ov, meta, layout, cs[n - 1], 8)
    }
}

impl ExfatRuntimeState {
    pub closed spec fn spec_nodes(&self) -> Seq<NodeView> {
        self.index.spec_nodes()
    }

    pub closed spec fn spec_metadata(&self) -> ExfatMetadataState {
        self.metadata
    }

    /// The id the index gives its next node.
    pub closed spec fn spec_index_next_id(&self) -> u64 {
        self.index.spec_next_id()
    }

    /// The real directory the index is mounted from.
    pub closed spec fn spec_mount_root(&self) -> Seq<char> {
        self.index.spec_mount_root()
    }

    /// `other` is this state but for its overlay and its pending transaction.
    pub closed spec fn same_but_writes(&self, other: ExfatRuntimeState) -> bool {
        &&& self.index == other.index
        &&& self.volume == other.volume
        &&& self.metadata == other.metadata
        &&& self.snapshot == other.snapshot
        &&& self.mount_root == other.mount_root
        &&& self.next_tx_id == other.next_tx_id
    }

    /// The id of the index's root node.
    pub closed spec fn spec_root_id(&self) -> NodeId {
        self.index.spec_root_id()
    }

    pub closed spec fn spec_layout(&self) -> DiskLayout {
        self.volume.spec_layout()
    }

    pub closed spec fn spec_overlay(&self) -> Map<u64, Seq<u8>> {
        self.metadata_overlay@
    }

    pub closed spec fn spec_volume_metadata(&self) -> Map<u64, Seq<u8>> {
        self.volume.spec_metadata()
    }

    pub closed spec fn spec_pending(&self) -> PendingTransaction {
        self.pending_tx
    }

    pub closed spec fn spec_snapshot(&self) -> PolicySnapshot {
        self.snapshot
    }

    pub closed spec fn spec_next_tx_id(&self) -> u64 {
        self.next_tx_id
    }

    /// The metadata and the volume layout are well formed, and the sector map
    /// covers the disk.
    pub closed spec fn wf(&self) -> bool {
        self.metadata.wf() && self.volume.wf() && self.metadata.spec_total() == self.volume.spec_layout().total_sectors
    }

    /// A sector that has an owner on the disk lies inside the disk.
    pub proof fn lemma_owned_sector_on_disk(&self, sector: u64)
        requires
            self.wf(),
            !(self.spec_metadata().spec_owner(sector) is OutOfRange),
        ensures
            sector < self.spec_layout().total_sectors,
    {
        self.metadata.lemma_owner_past_disk(sector);
    }

    /// The node at `path`.
    pub fn lookup_path(&self, path: &str) -> (r: Option<&VfsNode>)
        ensures
            match node_at(self.spec_nodes(), path@) {
                Some(n) => r matches Some(x) && x@ == n,
                None => r is None,
            },
    {
        match self.index.lookup_path(path) {
            Some(id) => self.index.node(id),
            None => None,
        }
    }

    /// The id of the node at `path`.
    pub fn lookup_node_id(&self, path: &str) -> (r: Option<NodeId>)
        ensures
            match find_path(self.spec_nodes(), path@) {
                Some(i) => r == Some(self.spec_nodes()[i].id),
                None => r is None,
            },
    {
        self.index.lookup_path(path)
    }

    /// The node with id `node_id`.
    pub fn node(&self, node_id: NodeId) -> (r: Option<&VfsNode>)
        ensures
            match find_id(self.spec_nodes(), node_id) {
                Some(i) => r matches Some(n) && n@ == self.spec_nodes()[i],
                None => r is None,
            },
    {
        self.index.node(node_id)
    }

    /// The directory records.
    pub fn directory_store(&self) -> (r: &DirectoryStore)
        ensures
            r@ == self.spec_metadata().spec_store(),
    {
        self.metadata.directory_store()
    }

    /// The owner of `sector`.
    pub fn sector_owner(&self, sector: u64) -> (o: SectorOwner)
        requires
            self.wf(),
        ensures
            o == self.spec_metadata().spec_owner(sector),
    {
        self.metadata.owner_of(sector)
    }

    /// The number of sectors of the disk.
    pub fn total_sectors(&self) -> (r: u64)
        ensures
            r == self.spec_layout().total_sectors,
    {
        self.volume.total_sectors()
    }

    /// The first sector of `cluster`.
    pub fn cluster_to_sector(&self, cluster: u32) -> (r: u64)
        requires
            self.wf(),
            cluster >= 2,
        ensures
            r == self.spec_layout().spec_cluster_to_sector(cluster as int),
    {
        self.volume.layout().cluster_to_sector(cluster)
    }

    /// The cluster size in bytes.
    pub fn cluster_size(&self) -> (r: u32)
        ensures
            r == 4096,
    {
        self.volume.layout().cluster_size()
    }

    /// The FAT chain from `first_cluster`.
    pub fn metadata_chain_from(&self, first_cluster: u32) -> (r: Result<Vec<u32>, IoError>)
        ensures
            match spec_chain_from(self.spec_metadata().spec_fat(), first_cluster, self.spec_metadata().spec_fat_count()) {
                Some(c) => r matches Ok(v) && v@ == c,
                None => r is Err,
            },
    {
        self.metadata.chain_from(first_cluster)
    }

    /// The path of the directory whose data a sector of `owner` holds.
    pub fn parent_path_for_directory_owner(&self, owner: &SectorOwner) -> (r: Option<String>)
        ensures
            match *owner {
                SectorOwner::RootDirectory => r matches Some(p) && p@ == seq!['/'],
                SectorOwner::DirectoryData { node_id } => match find_id(self.spec_nodes(), NodeId(node_id)) {
                    Some(i) => r matches Some(p) && p@ == self.spec_nodes()[i].virtual_path,
                    None => r is None,
                },
                _ => r is None,
            },
    {
        match owner {
            SectorOwner::RootDirectory => {
                let mut p = String::new();
                crate::text::push_char(&mut p, '/');
                assert(p@ =~= seq!['/']);
                Some(p)
            },
            SectorOwner::DirectoryData { node_id } => match self.index.node(NodeId(*node_id)) {
                Some(n) => Some(n.virtual_path.clone()),
                None => None,
            },
            _ => None,
        }
    }

    /// `(name, path, kind)` of the children of the directory at `parent_path`.
    pub fn immediate_children(&self, parent_path: &str) -> (r: Vec<(String, String, NodeKind)>)
        ensures
            r@.map_values(|c: (String, String, NodeKind)| (c.0@, c.1@, c.2)) == (match node_at(self.spec_nodes(), parent_path@) {
                Some(p) => children_of(self.spec_nodes(), p.children),
                None => seq![],
            }),
    {
        let mut out: Vec<(String, String, NodeKind)> = Vec::new();
        let parent = match self.lookup_path(parent_path) {
            Some(p) => p,
            None => {
                assert(out@.map_values(|c: (String, String, NodeKind)| (c.0@, c.1@, c.2)) =~= Seq::<(Seq<char>, Seq<char>, NodeKind)>::empty());
                return out;
            },
        };
        let ghost ids = parent.children@;
        let mut i: usize = 0;
        assert(ids.take(0) =~= Seq::<NodeId>::empty());
        assert(out@.map_values(|c: (String, String, NodeKind)| (c.0@, c.1@, c.2)) =~= children_of(self.spec_nodes(), ids.take(0)));
        while i < parent.children.len()
            invariant
                i <= ids.len(),
                ids == parent.children@,
                out@.map_values(|c: (String, String, NodeKind)| (c.0@, c.1@, c.2)) == children_of(self.spec_nodes(), ids.take(i as int)),
            decreases ids.len() - i,
        {
            let cid = parent.children[i];
            assert(ids.take(i + 1).drop_last() =~= ids.take(i as int));
            assert(ids.take(i + 1).last() == cid);
            let ghost prev = out@.map_values(|c: (String, String, NodeKind)| (c.0@, c.1@, c.2));
            match self.index.node(cid) {
                Some(n) => {
                    let kind = match n.kind {
                        VfsNodeKind::File => NodeKind::File,
                        VfsNodeKind::Directory => NodeKind::Directory,
                    };
                    out.push((n.name.clone(), n.virtual_path.clone(), kind));
                    assert(out@.map_values(|c: (String, String, NodeKind)| (c.0@, c.1@, c.2)) =~= prev.push(
                        (n.name@, n.virtual_path@, node_kind(n.kind)),
                    ));
                },
                None => {},
            }
            i = i + 1;
        }
        assert(ids.take(ids.len() as int) =~= ids);
        out
    }

    /// The current image of the directory at `path`: none when it has no
    /// clusters, an error when one of them is not a data cluster.
    pub open spec fn spec_directory_image(&self, path: Seq<char>) -> Result<Option<(u64, Seq<u8>)>, ()> {
        match first_with_path(self.spec_metadata().spec_store(), path) {
            None => Ok(None),
            Some(i) => {
                let cs = self.spec_metadata().spec_store()[i].clusters@;
                if cs.len() == 0 {
                    Ok(None)
                } else if exists|j: int| 0 <= j < cs.len() && cs[j] < 2 {
                    Err(())
                } else {
                    Ok(Some((self.spec_layout().spec_cluster_to_sector(cs[0] as int) as u64, clusters_image(
                        self.spec_overlay(),
                        self.spec_volume_metadata(),
                        self.spec_layout(),
                        cs,
                        cs.len() as int,
                    ))))
                }
            },
        }
    }

    /// The current image of the directory at `path` (its first sector and
    /// bytes), or none when the directory has no clusters. Fails with
    /// `InvalidData` when a directory cluster is not a data cluster.
    pub fn directory_image(&self, path: &str) -> (r: Result<Option<(u64, Vec<u8>)>, IoError>)
        requires
            self.wf(),
        ensures
            match self.spec_directory_image(path@) {
                Ok(None) => r matches Ok(x) && x is None,
                Ok(Some((fs, d))) => r matches Ok(Some((f, x))) && f == fs && x@ == d,
                Err(_) => r matches Err(e) && e.kind == ErrorKind::InvalidData,
            },
    {
        let clusters = match self.metadata.directory_clusters(path) {
            Some(c) => c,
            None => {
                return Ok(None);
            },
        };
        if clusters.len() == 0 {
            return Ok(None);
        }
        let mut j: usize = 0;
        while j < clusters.len()
            invariant
                j <= clusters@.len(),
                forall|k: int| 0 <= k < j ==> clusters@[k] >= 2,
                first_with_path(self.spec_metadata().spec_store(), path@) matches Some(ii) && clusters@
                    == self.spec_metadata().spec_store()[ii].clusters@,
            decreases clusters@.len() - j,
        {
            if clusters[j] < 2 {
                assert(clusters@[j as int] < 2);
                return Err(io_error(ErrorKind::InvalidData, "directory cluster is not a data cluster"));
            }
            j = j + 1;
        }
        let layout = self.volume.layout();
        let first_sector = layout.cluster_to_sector(clusters[0]);
        let mut data: Vec<u8> = Vec::new();
        let ghost ov = self.spec_overlay();
        let ghost vm = self.spec_volume_metadata();
        let mut i: usize = 0;
        while i < clusters.len()
            invariant
                i <= clusters@.len(),
                forall|k: int| 0 <= k < clusters@.len() ==> clusters@[k] >= 2,
                self.wf(),
                *layout == self.spec_layout(),
                ov == self.spec_overlay(),
                vm == self.spec_volume_metadata(),
                data@ == clusters_image(ov, vm, *layout, clusters@, i as int),
            decreases clusters@.len() - i,
        {
            let c = clusters[i];
            let base = layout.cluster_to_sector(c);
            let ghost before = data@;
            let mut k: u64 = 0;
            proof {
                layout.lemma_bounds();
            }
            while k < 8
                invariant
                    k <= 8,
                    c >= 2,
                    self.wf(),
                    *layout == self.spec_layout(),
                    ov == self.spec_overlay(),
                    vm == self.spec_volume_metadata(),
                    base == layout.spec_cluster_to_sector(c as int),
                    base + 8 <= u64::MAX,
                    data@ == before + cluster_image(ov, vm, *layout, c, k as int),
                decreases 8 - k,
            {
                let sector = base + k;
                let ghost pre = data@;
                match self.metadata_overlay.read_sector(sector) {
                    Some(bytes) => {
                        data.extend_from_slice(bytes);
                    },
                    None => match self.volume.read_sector(sector) {
                        SectorContent::Metadata(bytes) => {
                            data.extend_from_slice(bytes.as_slice());
                        },
                        _ => {
                            let mut z = crate::bytes::zero_bytes(512);
                            data.append(&mut z);
                        },
                    },
                }
                assert(data@ =~= pre + image_sector(ov, vm, layout.total_sectors, sector));
                assert(data@ =~= before + cluster_image(ov, vm, *layout, c, k + 1));
                k = k + 1;
            }
            i = i + 1;
        }
        Ok(Some((first_sector, data)))
    }
}

/// The owner names a node that `nodes` holds, where it names one at all.
pub open spec fn owner_node_ok(nodes: Seq<NodeView>, o: SectorOwner) -> bool {
    match o {
        SectorOwner::DirectoryData { node_id } => find_id(nodes, NodeId(node_id)) is Some,
        SectorOwner::FileData { node_id, .. } => find_id(nodes, NodeId(node_id)) is Some,
        SectorOwner::AllocatedZero { node_id, .. } => find_id(nodes, NodeId(node_id)) is Some,
        _ => true,
    }
}

/// Clusters a file of `size` bytes spans (cut to 32 bits).
pub open spec fn file_cluster_count_spec(size: u64) -> u32 {
    (((size as int + 4095) / 4096) % 0x1_0000_0000) as u32
}

/// Clusters a file of `size` bytes spans (cut to 32 bits).
pub fn file_cluster_count(size: u64) -> (r: u32)
    ensures
        r == file_cluster_count_spec(size),
{
    let q: u64 = size / 4096 + if size % 4096 == 0 { 0 } else { 1 };
    assert(q == (size as int + 4095) / 4096);
    (q % 0x1_0000_0000) as u32
}

/// The index of the last node with the virtual path `p`.
fn last_with_virtual_path(nodes: &[VfsNode], p: &str) -> (r: Option<usize>)
    ensures
        r matches Some(i) ==> i < nodes@.len() && nodes@[i as int].virtual_path@ == p@,
        r is None ==> forall|i: int| 0 <= i < nodes@.len() ==> (#[trigger] nodes@[i]).virtual_path@ != p@,
{
    let mut i: usize = nodes.len();
    while i > 0
        invariant
            i <= nodes@.len(),
            forall|k: int| i <= k < nodes@.len() ==> (#[trigger] nodes@[k]).virtual_path@ != p@,
        decreases i,
    {
        i = i - 1;
        if crate::strings::str_eq(nodes[i].virtual_path.as_str(), p) {
            return Some(i);
        }
    }
    None
}

/// The index of the last node with the real path `p`.
fn last_with_real_path(nodes: &[VfsNode], p: &str) -> (r: Option<usize>)
    ensures
        r matches Some(i) ==> i < nodes@.len() && nodes@[i as int].real_path@ == p@ && forall|k: int|
            i < k < nodes@.len() ==> (#[trigger] nodes@[k]).real_path@ != p@,
        r is None ==> forall|i: int| 0 <= i < nodes@.len() ==> (#[trigger] nodes@[i]).real_path@ != p@,
{
    let mut i: usize = nodes.len();
    while i > 0
        invariant
            i <= nodes@.len(),
            forall|k: int| i <= k < nodes@.len() ==> (#[trigger] nodes@[k]).real_path@ != p@,
        decreases i,
    {
        i = i - 1;
        if crate::strings::str_eq(nodes[i].real_path.as_str(), p) {
            return Some(i);
        }
    }
    None
}

/// `b` holds the nodes of `a`, in order, with at most their first clusters
/// changed.
pub open spec fn same_but_clusters(a: Seq<NodeView>, b: Seq<NodeView>) -> bool {
    &&& b.len() == a.len()
    &&& forall|i: int| 0 <= i < a.len() ==> #[trigger] b[i] == (NodeView { first_cluster: b[i].first_cluster, ..a[i] })
}

/// Copying first clusters into the nodes changes nothing else of them.
proof fn lemma_sync_keeps_nodes(nodes: Seq<NodeView>, volume: VirtualVolume)
    ensures
        sync_spec(nodes, volume) matches Some(ms) ==> same_but_clusters(nodes, ms),
{
    lemma_sync_dirs_keeps(nodes, volume.spec_dirs(), volume.spec_dirs().len() as int);
    match sync_dirs_spec(nodes, volume.spec_dirs(), volume.spec_dirs().len() as int) {
        Some(ns) => {
            lemma_sync_ranges_keeps(ns, volume.spec_ranges(), volume.spec_layout(), volume.spec_ranges().len() as int);
            match sync_spec(nodes, volume) {
                Some(ms) => {
                    assert forall|i: int| 0 <= i < nodes.len() implies #[trigger] ms[i] == (NodeView {
                        first_cluster: ms[i].first_cluster,
                        ..nodes[i]
                    }) by {
                        assert(ns[i] == (NodeView { first_cluster: ns[i].first_cluster, ..nodes[i] }));
                        assert(ms[i] == (NodeView { first_cluster: ms[i].first_cluster, ..ns[i] }));
                    }
                },
                None => {},
            }
        },
        None => {},
    }
}

/// Setting a first cluster changes nothing else of the nodes.
proof fn lemma_set_first_keeps(nodes: Seq<NodeView>, path: Seq<char>, fc: Option<u32>)
    ensures
        set_first_spec(nodes, path, fc) matches Some(ms) ==> same_but_clusters(nodes, ms),
{
    match find_path(nodes, path) {
        Some(k) => {
            crate::vfs::index::lemma_find_path(nodes, path, 0);
            let ms = nodes.update(k, NodeView { first_cluster: fc, ..nodes[k] });
            assert forall|i: int| 0 <= i < nodes.len() implies #[trigger] ms[i] == (NodeView {
                first_cluster: ms[i].first_cluster,
                ..nodes[i]
            }) by {}
        },
        None => {},
    }
}

/// Giving directories their first clusters changes nothing else of the nodes.
proof fn lemma_sync_dirs_keeps(nodes: Seq<NodeView>, dirs: Seq<(Seq<char>, Seq<u32>)>, k: int)
    ensures
        sync_dirs_spec(nodes, dirs, k) matches Some(ms) ==> same_but_clusters(nodes, ms),
    decreases k,
{
    if k > 0 {
        lemma_sync_dirs_keeps(nodes, dirs, k - 1);
        match sync_dirs_spec(nodes, dirs, k - 1) {
            Some(ns) => {
                let fc = if dirs[k - 1].1.len() > 0 { Some(dirs[k - 1].1[0]) } else { None };
                lemma_set_first_keeps(ns, dirs[k - 1].0, fc);
                match set_first_spec(ns, dirs[k - 1].0, fc) {
                    Some(ms) => {
                        assert forall|i: int| 0 <= i < nodes.len() implies #[trigger] ms[i] == (NodeView {
                            first_cluster: ms[i].first_cluster,
                            ..nodes[i]
                        }) by {
                            assert(ns[i] == (NodeView { first_cluster: ns[i].first_cluster, ..nodes[i] }));
                        }
                    },
                    None => {},
                }
            },
            None => {},
        }
    }
}

/// Giving files their first clusters changes nothing else of the nodes.
proof fn lemma_sync_ranges_keeps(
    nodes: Seq<NodeView>,
    ranges: Seq<crate::exfat::volume::RangeView>,
    layout: DiskLayout,
    k: int,
)
    ensures
        sync_ranges_spec(nodes, ranges, layout, k) matches Some(ms) ==> same_but_clusters(nodes, ms),
    decreases k,
{
    if k > 0 {
        lemma_sync_ranges_keeps(nodes, ranges, layout, k - 1);
        match sync_ranges_spec(nodes, ranges, layout, k - 1) {
            Some(ns) => match layout.spec_sector_to_cluster(ranges[k - 1].start_sector as int) {
                None => {},
                Some(fc) => match last_real(ns, ranges[k - 1].real_path, ns.len() as int) {
                    None => {},
                    Some(j) => {
                        lemma_set_first_keeps(ns, ns[j].virtual_path, Some(fc));
                        match set_first_spec(ns, ns[j].virtual_path, Some(fc)) {
                            Some(ms) => {
                                assert forall|i: int| 0 <= i < nodes.len() implies #[trigger] ms[i] == (NodeView {
                                    first_cluster: ms[i].first_cluster,
                                    ..nodes[i]
                                }) by {
                                    assert(ns[i] == (NodeView { first_cluster: ns[i].first_cluster, ..nodes[i] }));
                                }
                            },
                            None => {},
                        }
                    },
                },
            },
            None => {},
        }
    }
}

/// Nodes that differ only in first clusters keep each other's places.
proof fn lemma_same_but_keeps(a: Seq<NodeView>, b: Seq<NodeView>)
    requires
        same_but_clusters(a, b),
    ensures
        keeps_nodes(a, b),
{
    assert forall|j: int| 0 <= j < a.len() implies same_place(#[trigger] b[j], a[j]) by {
        assert(b[j] == (NodeView { first_cluster: b[j].first_cluster, ..a[j] }));
    }
}

proof fn lemma_sync_dirs_some(nodes: Seq<NodeView>, dirs: Seq<(Seq<char>, Seq<u32>)>, k: int)
    requires
        0 <= k <= dirs.len(),
        forall|i: int| 0 <= i < dirs.len() ==> find_path(nodes, (#[trigger] dirs[i]).0) is Some,
    ensures
        sync_dirs_spec(nodes, dirs, k) is Some,
    decreases k,
{
    if k > 0 {
        lemma_sync_dirs_some(nodes, dirs, k - 1);
        lemma_sync_dirs_keeps(nodes, dirs, k - 1);
        let ns = sync_dirs_spec(nodes, dirs, k - 1)->Some_0;
        lemma_same_but_keeps(nodes, ns);
        assert(find_path(nodes, dirs[k - 1].0) is Some);
        lemma_find_path_in_kept(nodes, ns, dirs[k - 1].0);
    }
}

proof fn lemma_last_real_in(nodes: Seq<NodeView>, p: Seq<char>, n: int)
    requires
        0 <= n <= nodes.len(),
    ensures
        last_real(nodes, p, n) matches Some(j) ==> 0 <= j < n && nodes[j].real_path == p,
    decreases n,
{
    if n > 0 {
        lemma_last_real_in(nodes, p, n - 1);
    }
}

proof fn lemma_sync_ranges_some(
    nodes: Seq<NodeView>,
    ranges: Seq<crate::exfat::volume::RangeView>,
    layout: DiskLayout,
    k: int,
)
    requires
        0 <= k,
    ensures
        sync_ranges_spec(nodes, ranges, layout, k) is Some,
    decreases k,
{
    if k > 0 {
        lemma_sync_ranges_some(nodes, ranges, layout, k - 1);
        let ns = sync_ranges_spec(nodes, ranges, layout, k - 1)->Some_0;
        lemma_last_real_in(ns, ranges[k - 1].real_path, ns.len() as int);
        match last_real(ns, ranges[k - 1].real_path, ns.len() as int) {
            Some(j) => {
                crate::vfs::index::lemma_find_path(ns, ns[j].virtual_path, 0);
            },
            None => {},
        }
    }
}

/// No two nodes share a real path.
pub open spec fn real_paths_distinct(ns: Seq<NodeView>) -> bool {
    forall|i: int, j: int| 0 <= i < j < ns.len() ==> (#[trigger] ns[i]).real_path != (#[trigger] ns[j]).real_path
}

/// The chain recorded for the file of a mapping fits in the mapping's
/// clusters: the node found by its real path is its own, sized as the file or
/// as the placeholder.
proof fn lemma_file_fits(ns: Seq<NodeView>, nn: Seq<NodeView>, mp: MappingView, q: int, size: u64, count: u32)
    requires
        real_paths_distinct(ns),
        same_but_clusters(ns, nn),
        file_node(ns, mp),
        mp.file_size > 0,
        0 <= q < nn.len(),
        nn[q].real_path == mp.real_path,
        nn[q].size == size,
        count == file_cluster_count_spec(size),
    ensures
        count <= file_clusters_spec(mp.file_size),
{
    let i = choose|i: int|
        0 <= i < ns.len() && (#[trigger] ns[i]).real_path == mp.real_path && (ns[i].size == mp.file_size || ns[i].size
            == placeholder_size());
    assert(nn[q] == (NodeView { first_cluster: nn[q].first_cluster, ..ns[q] }));
    if i != q {
        if i < q {
            assert(ns[i].real_path != ns[q].real_path);
        } else {
            assert(ns[q].real_path != ns[i].real_path);
        }
    }
    if size != mp.file_size {
        crate::types::lemma_placeholder_short();
        assert((size + 4095) / 4096 <= 1);
    }
}

/// Recording a file's chain inside its clusters keeps the assembly facts.
proof fn lemma_chain_marks(
    m0: ExfatMetadataState,
    m1: ExfatMetadataState,
    layout: DiskLayout,
    t: u64,
    id: NodeId,
    chain: Seq<u32>,
    size: u64,
    nn: Seq<NodeView>,
    d: Seq<(Seq<char>, Seq<u32>)>,
    src: Seq<int>,
    maps: Seq<MappingView>,
    n: int,
    ns: Seq<NodeView>,
)
    requires
        layout.wf(),
        t == layout.total_sectors,
        0 <= n < maps.len(),
        dirs_apart(d, maps, 2, layout.cluster_count + 2, ns),
        4 <= maps[n].start_cluster,
        maps[n].start_cluster + file_clusters_spec(maps[n].file_size) <= layout.cluster_count + 2,
        chain.len() <= file_clusters_spec(maps[n].file_size),
        forall|z: int| 0 <= z < chain.len() ==> #[trigger] chain[z] == maps[n].start_cluster + z,
        find_id(nn, id) is Some,
        records_owned(m0.spec_store(), m0.spec_bitmap(), layout, t, m0.spec_ranges(), m0.spec_lookup(), -1, 0),
        alloc_owned(m0.spec_bitmap(), layout, t, m0.spec_ranges(), m0.spec_lookup()),
        ranges_named(nn, m0.spec_ranges()),
        records_from(m0.spec_store(), src, d, d.len() as int, nn),
        m1.spec_store() == m0.spec_store(),
        m1.spec_lookup() == m0.spec_lookup(),
        m1.spec_bitmap() == m0.spec_bitmap().union(set_of(chain, chain.len() as int)),
        m1.spec_ranges() == m0.spec_ranges() + file_ranges(layout, id, chain, size),
    ensures
        records_owned(m1.spec_store(), m1.spec_bitmap(), layout, t, m1.spec_ranges(), m1.spec_lookup(), -1, 0),
        alloc_owned(m1.spec_bitmap(), layout, t, m1.spec_ranges(), m1.spec_lookup()),
        ranges_named(nn, m1.spec_ranges()),
        records_from(m1.spec_store(), src, d, d.len() as int, nn),
{
    let extra = file_ranges(layout, id, chain, size);
    let st = m0.spec_store();
    let s0 = maps[n].start_cluster;
    let n0 = file_clusters_spec(maps[n].file_size);
    assert forall|k: int| 0 <= k < extra.len() implies taken_owner((#[trigger] extra[k]).owner) && owner_node_ok(
        nn,
        extra[k].owner,
    ) by {}
    assert forall|x: int, j: int, k: int|
        0 <= x < st.len() && 0 <= j < st[x].clusters@.len() && 0 <= k < extra.len() implies !((#[trigger] extra[k]).start
        <= sec(layout, #[trigger] st[x].clusters@[j]) < extra[k].start + extra[k].len) by {
        let c2 = st[x].clusters@[j];
        assert(c2 == d[src[x]].1[j]);
        assert(!in_file(maps[n], d[src[x]].1[j] as int));
        assert(2 <= c2 < layout.cluster_count + 2);
        let cz = chain[k / 8];
        assert(cz == s0 + k / 8);
        lemma_sec(layout, c2);
        lemma_sec(layout, cz);
    }
    assert forall|c: u32| #[trigger] m1.spec_bitmap().contains(c) implies m0.spec_bitmap().contains(c) || (sec(layout, c) < t
        && exists|k: int| 0 <= k < extra.len() && (#[trigger] extra[k]).start <= sec(layout, c) < extra[k].start + extra[k].len) by {
        if !m0.spec_bitmap().contains(c) {
            lemma_set_of_member(chain, chain.len() as int, c);
            let tt = choose|tt: int| 0 <= tt < chain.len() && tt < chain.len() && chain[tt] == c;
            lemma_sec(layout, c);
            let k = 8 * tt;
            assert(k / 8 == tt && k % 8 == 0) by (nonlinear_arith)
                requires
                    k == 8 * tt,
                    tt >= 0,
            ;
            assert(extra[k].start == sec(layout, c));
        }
    }
    lemma_push_ranges(st, m0.spec_bitmap(), m1.spec_bitmap(), layout, t, m0.spec_ranges(), m0.spec_lookup(), extra, nn);
}

/// The assembled metadata is consistent with the index.
proof fn lemma_assembled_consistent(
    meta: ExfatMetadataState,
    nn: Seq<NodeView>,
    layout: DiskLayout,
    t: u64,
    src: Seq<int>,
    d: Seq<(Seq<char>, Seq<u32>)>,
)
    requires
        meta.spec_total() == t,
        records_owned(meta.spec_store(), meta.spec_bitmap(), layout, t, meta.spec_ranges(), meta.spec_lookup(), -1, 0),
        alloc_owned(meta.spec_bitmap(), layout, t, meta.spec_ranges(), meta.spec_lookup()),
        ranges_named(nn, meta.spec_ranges()),
        records_from(meta.spec_store(), src, d, d.len() as int, nn),
    ensures
        meta.spec_valid(nn, layout),
        forall|i: int|
            0 <= i < meta.spec_ranges().len() ==> owner_node_ok(nn, meta.spec_owner(#[trigger] meta.spec_ranges()[i].start)),
{
    let st = meta.spec_store();
    assert forall|i: int| 0 <= i < st.len() implies find_id(nn, (#[trigger] st[i]).node_id) is Some by {
        assert(0 <= src[i] < d.len());
    }
    assert forall|i: int, j: int| 0 <= i < st.len() && 0 <= j < st[i].clusters@.len() implies {
        let c = #[trigger] st[i].clusters@[j];
        &&& meta.spec_bitmap().contains(c)
        &&& dir_owner_ok(st[i], meta.spec_owner(layout.spec_cluster_to_sector(c as int) as u64))
    } by {
        meta.lemma_owner_def(sec(layout, st[i].clusters@[j]));
    }
    assert forall|c: u32| #[trigger] meta.spec_bitmap().contains(c) implies !(meta.spec_owner(
        layout.spec_cluster_to_sector(c as int) as u64,
    ) is FreeCluster) by {
        meta.lemma_owner_def(sec(layout, c));
    }
    assert forall|i: int| 0 <= i < meta.spec_ranges().len() implies owner_node_ok(nn, meta.spec_owner(#[trigger] meta.spec_ranges()[i].start)) by {
        meta.lemma_owner_def(meta.spec_ranges()[i].start);
        lemma_named_owner(nn, t, meta.spec_ranges(), meta.spec_lookup(), meta.spec_ranges()[i].start);
    }
}

/// `s1` is `s0` with the record of the directory at `path` (its clusters
/// and node) put in place of the first one at that path, or appended.
pub open spec fn stored_as(s0: Seq<DirectoryRecord>, s1: Seq<DirectoryRecord>, path: Seq<char>, clusters: Seq<u32>, id: NodeId) -> bool {
    let idx = match first_with_path(s0, path) {
        Some(x) => x,
        None => s0.len() as int,
    };
    &&& 0 <= idx < s1.len()
    &&& s1.len() == if idx < s0.len() { s0.len() } else { s0.len() + 1 }
    &&& s1[idx].clusters@ == clusters
    &&& s1[idx].virtual_path@ == path
    &&& s1[idx].node_id == id
    &&& forall|x: int| 0 <= x < s1.len() && x != idx ==> #[trigger] s1[x] == s0[x]
}

/// Records the directory at `path` (node `id`) with its `clusters`: the
/// directory record, the FAT chain, the allocation and the owner of each
/// cluster. Where `good` holds (the clusters are in the heap and apart from
/// those of the records held, and the assembly facts hold), it succeeds and
/// keeps the facts.
#[verifier::rlimit(50)]
fn record_directory(
    store: &mut DirectoryStore,
    fat: &mut FatState,
    bitmap: &mut BitmapState,
    owners: &mut SectorOwnerMap,
    layout: &DiskLayout,
    path: &String,
    clusters: &Vec<u32>,
    id: NodeId,
    Ghost(good): Ghost<bool>,
    Ghost(nn): Ghost<Seq<NodeView>>,
) -> (r: Result<(), IoError>)
    requires
        layout.wf(),
        old(bitmap).wf(),
        old(owners).wf(),
        old(owners).spec_total() == layout.total_sectors,
        old(bitmap).spec_cluster_count() == layout.cluster_count,
        old(fat).spec_cluster_count() == layout.cluster_count,
        find_id(nn, id) is Some,
        good ==> forall|j: int| 0 <= j < clusters@.len() ==> 2 <= #[trigger] clusters@[j] < layout.cluster_count + 2,
        good ==> forall|x: int, j: int, jj: int|
            0 <= x < old(store)@.len() && 0 <= j < old(store)@[x].clusters@.len() && 0 <= jj < clusters@.len() ==> #[trigger] old(
                store,
            )@[x].clusters@[j] != #[trigger] clusters@[jj],
        good ==> forall|x: int, j: int|
            0 <= x < old(store)@.len() && 0 <= j < old(store)@[x].clusters@.len() ==> 2 <= #[trigger] old(store)@[x].clusters@[j]
                < layout.cluster_count + 2,
        good ==> records_owned(old(store)@, old(bitmap)@, *layout, layout.total_sectors, old(owners).spec_ranges(), old(owners).spec_lookup(), -1, 0),
        good ==> alloc_owned(old(bitmap)@, *layout, layout.total_sectors, old(owners).spec_ranges(), old(owners).spec_lookup()),
        good ==> ranges_named(nn, old(owners).spec_ranges()),
    ensures
        final(bitmap).wf(),
        final(owners).wf(),
        final(owners).spec_total() == layout.total_sectors,
        final(bitmap).spec_cluster_count() == layout.cluster_count,
        final(fat).spec_cluster_count() == layout.cluster_count,
        good ==> r is Ok,
        stored_as(old(store)@, final(store)@, path@, clusters@, id),
        good && r is Ok ==> records_owned(final(store)@, final(bitmap)@, *layout, layout.total_sectors, final(owners).spec_ranges(), final(owners).spec_lookup(), -1, 0),
        good && r is Ok ==> alloc_owned(final(bitmap)@, *layout, layout.total_sectors, final(owners).spec_ranges(), final(owners).spec_lookup()),
        good && r is Ok ==> ranges_named(nn, final(owners).spec_ranges()),
{
    let ghost store0 = store@;
    proof {
        crate::exfat::directory_store::lemma_first_with_path_in(store0, path@);
    }
    let ghost idx: int = match first_with_path(store0, path@) {
        Some(x) => x,
        None => store0.len() as int,
    };
    let pc = path.clone();
    let cv = vstd::slice::slice_to_vec(clusters.as_slice());
    store.insert_directory(pc, id, cv);
    proof {
        assert forall|x: int| 0 <= x < store@.len() && x != idx implies #[trigger] store@[x] == store0[x] by {}
    }
    let ghost t = layout.total_sectors;
    assert(stored_as(store0, store@, path@, clusters@, id));
    if let Err(e) = fat.set_chain(clusters.as_slice()) {
        return Err(e);
    }
    let root = "/";
    proof {
        reveal_strlit("/");
    }
    assert(root@ =~= seq!['/']);
    let is_root = crate::strings::str_eq(path.as_str(), root);
    let mut j: usize = 0;
    while j < clusters.len()
        invariant
            layout.wf(),
            bitmap.wf(),
            owners.wf(),
            owners.spec_total() == layout.total_sectors,
            t == layout.total_sectors,
            bitmap.spec_cluster_count() == layout.cluster_count,
            fat.spec_cluster_count() == layout.cluster_count,
            is_root == (path@ == seq!['/']),
            0 <= idx < store@.len(),
            idx == match first_with_path(store0, path@) {
                Some(x) => x,
                None => store0.len() as int,
            },
            store@.len() == if idx < store0.len() { store0.len() } else { store0.len() + 1 },
            store@[idx].clusters@ == clusters@,
            store@[idx].virtual_path@ == path@,
            store@[idx].node_id == id,
            stored_as(store0, store@, path@, clusters@, id),
            store0 == old(store)@,
            find_id(nn, id) is Some,
            j <= clusters@.len(),
            forall|x: int| 0 <= x < store@.len() && x != idx ==> #[trigger] store@[x] == store0[x],
            good ==> forall|jj: int| 0 <= jj < clusters@.len() ==> 2 <= #[trigger] clusters@[jj] < layout.cluster_count + 2,
            good ==> forall|x: int, j1: int|
                0 <= x < store0.len() && 0 <= j1 < store0[x].clusters@.len() ==> 2 <= #[trigger] store0[x].clusters@[j1]
                    < layout.cluster_count + 2,
            good ==> forall|x: int, j1: int, jj: int|
                0 <= x < store0.len() && 0 <= j1 < store0[x].clusters@.len() && 0 <= jj < clusters@.len() ==> #[trigger] store0[x].clusters@[j1]
                    != #[trigger] clusters@[jj],
            good ==> records_owned(store@, bitmap@, *layout, t, owners.spec_ranges(), owners.spec_lookup(), idx, j as int),
            good ==> alloc_owned(bitmap@, *layout, t, owners.spec_ranges(), owners.spec_lookup()),
            good ==> ranges_named(nn, owners.spec_ranges()),
        decreases clusters@.len() - j,
    {
        let c = clusters[j];
        let ghost bm0 = bitmap@;
        let ghost rsb = owners.spec_ranges();
        proof {
            if good {
                assert(2 <= clusters@[j as int] < layout.cluster_count + 2);
                lemma_sec(*layout, c);
            }
        }
        if let Err(e) = bitmap.mark_allocated(c) {
            return Err(e);
        }
        if c < FIRST_CLUSTER {
            return Err(io_error(ErrorKind::InvalidData, "directory cluster is not a data cluster"));
        }
        let owner = if is_root {
            SectorOwner::RootDirectory
        } else {
            SectorOwner::DirectoryData { node_id: id.0 }
        };
        if let Err(e) = owners.mark_range(layout.cluster_to_sector(c), 8, owner) {
            return Err(e);
        }
        proof {
            if good {
                let r = OwnerRange { start: sec(*layout, c), len: 8, owner };
                let st = store@;
                assert forall|x: int, jj: int|
                    0 <= x < st.len() && 0 <= jj < st[x].clusters@.len() && (x != idx || jj < j + 1) implies {
                    let c2 = #[trigger] st[x].clusters@[jj];
                    &&& bitmap@.contains(c2)
                    &&& ((x != idx || jj < j) && !(r.start <= sec(*layout, c2) < r.start + r.len)) || (r.start <= sec(*layout, c2)
                        < r.start + r.len && sec(*layout, c2) < t && dir_owner_ok(st[x], r.owner))
                } by {
                    let c2 = st[x].clusters@[jj];
                    if x != idx {
                        assert(st[x] == store0[x]);
                        assert(store0[x].clusters@[jj] != clusters@[j as int]);
                        assert(records_owned(st, bm0, *layout, t, rsb, owners.spec_lookup(), idx, j as int));
                        assert(bm0.contains(c2));
                        assert(2 <= c2 < layout.cluster_count + 2);
                        lemma_sec_outside(*layout, c2, c, 1);
                    } else {
                        assert(2 <= clusters@[jj] < layout.cluster_count + 2);
                        if c2 != c {
                            lemma_sec_outside(*layout, c2, c, 1);
                        }
                    }
                }
                lemma_push_range(st, bm0, bitmap@, *layout, t, rsb, owners.spec_lookup(), r, nn, idx, j as int, j + 1);
            }
        }
        j = j + 1;
    }
    proof {
        if good {
            let st = store@;
            assert forall|x: int, jj: int|
                0 <= x < st.len() && 0 <= jj < st[x].clusters@.len() && (x != -1 || jj < 0) implies {
                let c2 = #[trigger] st[x].clusters@[jj];
                &&& bitmap@.contains(c2)
                &&& dir_owner_ok(st[x], crate::exfat::sector_owner::owner_in(t, owners.spec_ranges(), owners.spec_lookup(), sec(*layout, c2)))
            } by {}
        }
    }
    Ok(())
}

/// The VFS index of the controlled tree, with the first clusters of the
/// generated volume copied in, and that volume.
fn build_parts(mount_root: &str, entries: &[ControlledEntry], snapshot: &PolicySnapshot, source_size_bytes: u64) -> (r: Result<
    (VfsIndex, VirtualVolume),
    IoError,
>)
    ensures
        spec_from_tree(mount_root@, entries@, *snapshot) matches Err(k) ==> r matches Err(e) && e.kind == k,
        r is Ok ==> volume_fits(entries@, *snapshot, source_size_bytes),
        spec_from_tree(mount_root@, entries@, *snapshot) is Ok && volume_fits(entries@, *snapshot, source_size_bytes)
            ==> r is Ok,
        r matches Ok((ix, v)) ==> {
            &&& v.wf()
            &&& v.spec_layout() == gen_layout(tree_builder(entries@, *snapshot), source_size_bytes)
            &&& v.spec_dirs() == volume_dirs(entries@, *snapshot)
            &&& v.spec_ranges() == Seq::new(
                tree_builder(entries@, *snapshot).maps.len(),
                |k: int| range_of(v.spec_layout(), tree_builder(entries@, *snapshot).maps[k]),
            )
            &&& spec_from_tree(mount_root@, entries@, *snapshot) matches Ok((ns, nx)) && same_but_clusters(ns, ix.spec_nodes())
                && ix.spec_next_id() == nx && ix.spec_root_id() == NodeId(1) && ix.spec_mount_root() == mount_root@
        },
{
        let mut index = match VfsIndex::from_controlled_tree(mount_root, entries, snapshot) {
            Ok(ix) => ix,
            Err(e) => {
                return Err(e);
            },
        };
        let volume = match VirtualVolume::build_with_capacity(entries, snapshot, source_size_bytes) {
            Ok(v) => v,
            Err(e) => {
                return Err(e);
            },
        };
        let ghost built = index.spec_nodes();
        proof {
            lemma_built_tree_lookup(mount_root@, entries@, *snapshot);
            lemma_built_root(mount_root@, entries@, *snapshot);
            lemma_volume_plan(entries@, *snapshot, built, source_size_bytes);
            let dv = volume.spec_dirs();
            assert(dv == volume_dirs(entries@, *snapshot));
            lemma_sync_dirs_some(built, dv, dv.len() as int);
            let ns1 = sync_dirs_spec(built, dv, dv.len() as int)->Some_0;
            lemma_sync_ranges_some(ns1, volume.spec_ranges(), volume.spec_layout(), volume.spec_ranges().len() as int);
        }
        match sync_vfs_clusters_from_volume(&mut index, &volume) {
            Ok(()) => {},
            Err(e) => {
                return Err(e);
            },
        }
        proof {
            lemma_sync_keeps_nodes(built, volume);
        }
        Ok((index, volume))
}

/// `nodes` with the first cluster of the node at `path` set to `fc`; `None`
/// when no node has that path.
pub open spec fn set_first_spec(nodes: Seq<NodeView>, path: Seq<char>, fc: Option<u32>) -> Option<Seq<NodeView>> {
    match find_path(nodes, path) {
        Some(i) => Some(nodes.update(i, NodeView { first_cluster: fc, ..nodes[i] })),
        None => None,
    }
}

/// `nodes` after giving each of the first `k` directories of `dirs` its
/// first cluster (none for a directory without clusters).
pub open spec fn sync_dirs_spec(nodes: Seq<NodeView>, dirs: Seq<(Seq<char>, Seq<u32>)>, k: int) -> Option<Seq<NodeView>>
    decreases k,
{
    if k <= 0 {
        Some(nodes)
    } else {
        match sync_dirs_spec(nodes, dirs, k - 1) {
            None => None,
            Some(ns) => set_first_spec(
                ns,
                dirs[k - 1].0,
                if dirs[k - 1].1.len() > 0 { Some(dirs[k - 1].1[0]) } else { None },
            ),
        }
    }
}

/// The index of the last node with real path `p`.
pub open spec fn last_real(nodes: Seq<NodeView>, p: Seq<char>, n: int) -> Option<int>
    decreases n,
{
    if n <= 0 {
        None
    } else if nodes[n - 1].real_path == p {
        Some(n - 1)
    } else {
        last_real(nodes, p, n - 1)
    }
}

/// `nodes` after giving the file of each of the first `k` data ranges (the
/// last node with its real path) the cluster where the range starts, when it
/// starts in the cluster heap.
pub open spec fn sync_ranges_spec(
    nodes: Seq<NodeView>,
    ranges: Seq<crate::exfat::volume::RangeView>,
    layout: DiskLayout,
    k: int,
) -> Option<Seq<NodeView>>
    decreases k,
{
    if k <= 0 {
        Some(nodes)
    } else {
        match sync_ranges_spec(nodes, ranges, layout, k - 1) {
            None => None,
            Some(ns) => match layout.spec_sector_to_cluster(ranges[k - 1].start_sector as int) {
                None => Some(ns),
                Some(fc) => match last_real(ns, ranges[k - 1].real_path, ns.len() as int) {
                    None => Some(ns),
                    Some(j) => set_first_spec(ns, ns[j].virtual_path, Some(fc)),
                },
            },
        }
    }
}

/// The index nodes after copying the volume's first clusters into them.
pub open spec fn sync_spec(nodes: Seq<NodeView>, volume: VirtualVolume) -> Option<Seq<NodeView>> {
    match sync_dirs_spec(nodes, volume.spec_dirs(), volume.spec_dirs().len() as int) {
        None => None,
        Some(ns) => sync_ranges_spec(ns, volume.spec_ranges(), volume.spec_layout(), volume.spec_ranges().len() as int),
    }
}

/// A last match found by scanning down is the last one.
proof fn lemma_last_real(nodes: Seq<NodeView>, p: Seq<char>, n: int, i: int)
    requires
        0 <= i < n <= nodes.len(),
        nodes[i].real_path == p,
        forall|k: int| i < k < n ==> (#[trigger] nodes[k]).real_path != p,
    ensures
        last_real(nodes, p, n) == Some(i),
    decreases n,
{
    if n - 1 > i {
        lemma_last_real(nodes, p, n - 1, i);
    }
}

/// No match gives none.
proof fn lemma_last_real_none(nodes: Seq<NodeView>, p: Seq<char>, n: int)
    requires
        0 <= n <= nodes.len(),
        forall|k: int| 0 <= k < n ==> (#[trigger] nodes[k]).real_path != p,
    ensures
        last_real(nodes, p, n) is None,
    decreases n,
{
    if n > 0 {
        lemma_last_real_none(nodes, p, n - 1);
    }
}

/// Once a step fails, the later steps fail too.
proof fn lemma_sync_dirs_none(nodes: Seq<NodeView>, dirs: Seq<(Seq<char>, Seq<u32>)>, i: int, n: int)
    requires
        0 <= i <= n,
        sync_dirs_spec(nodes, dirs, i) is None,
    ensures
        sync_dirs_spec(nodes, dirs, n) is None,
    decreases n - i,
{
    if i < n {
        lemma_sync_dirs_none(nodes, dirs, i + 1, n);
    }
}

/// Once a step fails, the later steps fail too.
proof fn lemma_sync_ranges_none(
    nodes: Seq<NodeView>,
    ranges: Seq<crate::exfat::volume::RangeView>,
    layout: DiskLayout,
    i: int,
    n: int,
)
    requires
        0 <= i <= n,
        sync_ranges_spec(nodes, ranges, layout, i) is None,
    ensures
        sync_ranges_spec(nodes, ranges, layout, n) is None,
    decreases n - i,
{
    if i < n {
        lemma_sync_ranges_none(nodes, ranges, layout, i + 1, n);
    }
}

/// Copies the first clusters the volume gave directories and files into the
/// index: each directory its first cluster, then the file of each data range
/// the cluster the range starts in. `NotFound` when a path has no node.
fn sync_vfs_clusters_from_volume(index: &mut VfsIndex, volume: &VirtualVolume) -> (r: Result<(), IoError>)
    requires
        volume.wf(),
    ensures
        final(index).spec_next_id() == old(index).spec_next_id(),
        final(index).spec_root_id() == old(index).spec_root_id(),
        final(index).spec_mount_root() == old(index).spec_mount_root(),
        match sync_spec(old(index).spec_nodes(), *volume) {
            Some(ns) => r is Ok && final(index).spec_nodes() == ns,
            None => r matches Err(e) && e.kind == ErrorKind::NotFound,
        },
{
    let dirs = volume.directory_cluster_entries();
    let ghost dv = volume.spec_dirs();
    let ghost n0 = old(index).spec_nodes();
    let mut i: usize = 0;
    while i < dirs.len()
        invariant
            i <= dirs@.len() == dv.len(),
            dirs@.map_values(|d: (String, Vec<u32>)| (d.0@, d.1@)) == dv,
            dv == volume.spec_dirs(),
            n0 == old(index).spec_nodes(),
            sync_dirs_spec(n0, dv, i as int) == Some(index.spec_nodes()),
            index.spec_next_id() == old(index).spec_next_id(),
            index.spec_root_id() == old(index).spec_root_id(),
            index.spec_mount_root() == old(index).spec_mount_root(),
        decreases dirs@.len() - i,
    {
        assert(dv[i as int] == (dirs@[i as int].0@, dirs@[i as int].1@));
        let first = if dirs[i].1.len() > 0 { Some(dirs[i].1[0]) } else { None };
        match index.set_first_cluster(dirs[i].0.as_str(), first) {
            Ok(()) => {},
            Err(e) => {
                proof {
                    lemma_sync_dirs_none(n0, dv, i + 1, dv.len() as int);
                }
                return Err(e);
            },
        }
        i = i + 1;
    }
    let ghost n1 = index.spec_nodes();
    let ranges = volume.file_data_range_entries();
    let ghost rv = volume.spec_ranges();
    let ghost layout = volume.spec_layout();
    let mut j: usize = 0;
    while j < ranges.len()
        invariant
            volume.wf(),
            j <= ranges@.len() == rv.len(),
            crate::exfat::volume::ranges_view(ranges@) == rv,
            rv == volume.spec_ranges(),
            layout == volume.spec_layout(),
            sync_ranges_spec(n1, rv, layout, j as int) == Some(index.spec_nodes()),
            sync_dirs_spec(n0, dv, dv.len() as int) == Some(n1),
            dv == volume.spec_dirs(),
            n0 == old(index).spec_nodes(),
            index.spec_next_id() == old(index).spec_next_id(),
            index.spec_root_id() == old(index).spec_root_id(),
            index.spec_mount_root() == old(index).spec_mount_root(),
        decreases ranges@.len() - j,
    {
        let info = &ranges[j];
        assert(rv[j as int].start_sector == info.start_sector && rv[j as int].real_path == info.real_path@);
        let ghost ns = index.spec_nodes();
        match volume.layout().sector_to_cluster(info.start_sector) {
            None => {},
            Some(first_cluster) => {
                let nodes = index.iter_nodes();
                let found = last_with_real_path(nodes, info.real_path.as_str());
                match found {
                    Some(k) => {
                        proof {
                            assert(crate::vfs::node::nodes_view(nodes@)[k as int] == nodes@[k as int]@);
                            assert forall|q: int| k < q < ns.len() implies (#[trigger] ns[q]).real_path != info.real_path@ by {
                                assert(ns[q] == nodes@[q]@);
                            }
                            lemma_last_real(ns, info.real_path@, ns.len() as int, k as int);
                        }
                        let path = nodes[k].virtual_path.clone();
                        match index.set_first_cluster(path.as_str(), Some(first_cluster)) {
                            Ok(()) => {},
                            Err(e) => {
                                proof {
                                    lemma_sync_ranges_none(n1, rv, layout, j + 1, rv.len() as int);
                                }
                                return Err(e);
                            },
                        }
                    },
                    None => {
                        proof {
                            assert forall|q: int| 0 <= q < ns.len() implies (#[trigger] ns[q]).real_path != info.real_path@ by {
                                assert(ns[q] == nodes@[q]@);
                            }
                            lemma_last_real_none(ns, info.real_path@, ns.len() as int);
                        }
                    },
                }
            },
        }
        j = j + 1;
    }
    Ok(())
}

impl ExfatRuntimeState {
    /// The metadata agrees with the index, and every explicitly owned range
    /// that names a node names one the index holds.
    pub open spec fn spec_consistent(&self) -> bool {
        &&& self.spec_metadata().spec_valid(self.spec_nodes(), self.spec_layout())
        &&& forall|i: int|
            0 <= i < self.spec_metadata().spec_ranges().len() ==> owner_node_ok(
                self.spec_nodes(),
                self.spec_metadata().spec_owner(#[trigger] self.spec_metadata().spec_ranges()[i].start),
            )
    }

    /// Checks that the metadata agrees with the index; `InvalidData` otherwise.
    pub fn validate_consistency(&self) -> (r: Result<(), IoError>)
        requires
            self.wf(),
        ensures
            r is Ok <==> self.spec_consistent(),
            r matches Err(e) ==> e.kind == ErrorKind::InvalidData,
    {
        match self.metadata.validate(&self.index, self.volume.layout()) {
            Ok(()) => {},
            Err(e) => {
                return Err(e);
            },
        }
        let ranges = self.metadata.explicit_ranges();
        let mut i: usize = 0;
        while i < ranges.len()
            invariant
                self.wf(),
                i <= ranges@.len(),
                ranges@.len() == self.spec_metadata().spec_ranges().len(),
                forall|k: int| 0 <= k < ranges@.len() ==> (#[trigger] ranges@[k]).0 == self.spec_metadata().spec_ranges()[k].start,
                forall|k: int|
                    0 <= k < i ==> owner_node_ok(
                        self.spec_nodes(),
                        self.spec_metadata().spec_owner(#[trigger] self.spec_metadata().spec_ranges()[k].start),
                    ),
            decreases ranges@.len() - i,
        {
            let start = ranges[i].0;
            let owner = self.metadata.owner_of(start);
            let missing = match owner {
                SectorOwner::DirectoryData { node_id } => self.index.node(NodeId(node_id)).is_none(),
                SectorOwner::FileData { node_id, .. } => self.index.node(NodeId(node_id)).is_none(),
                SectorOwner::AllocatedZero { node_id, .. } => self.index.node(NodeId(node_id)).is_none(),
                _ => false,
            };
            if missing {
                return Err(io_error(ErrorKind::InvalidData, "sector references a missing node"));
            }
            i = i + 1;
        }
        Ok(())
    }
}

impl ExfatRuntimeState {
    /// Builds the runtime state of the controlled tree `entries` below
    /// `mount_root`: the VFS index, the generated volume (at least
    /// `source_size_bytes` big) and the authoritative metadata, checked for
    /// consistency. It fails where the tree does not index (the error of
    /// `spec_from_tree`) or the volume does not fit; it succeeds on every tree
    /// that indexes, fits, and gives no two nodes the same real path.
    #[verifier::rlimit(100)]
    pub fn from_controlled_tree(mount_root: &str, entries: &[ControlledEntry], snapshot: PolicySnapshot, source_size_bytes: u64) -> (r:
        Result<Self, IoError>)
        ensures
            spec_from_tree(mount_root@, entries@, snapshot) matches Err(k) ==> r matches Err(e) && e.kind == k,
            r is Ok ==> volume_fits(entries@, snapshot, source_size_bytes),
            (spec_from_tree(mount_root@, entries@, snapshot) matches Ok((ns, nx)) && real_paths_distinct(ns)
                && volume_fits(entries@, snapshot, source_size_bytes)) ==> r is Ok,
            r matches Ok(s) ==> {
                &&& s.wf()
                &&& s.spec_consistent()
                &&& s.spec_layout() == gen_layout(tree_builder(entries@, snapshot), source_size_bytes)
                &&& s.spec_overlay() == Map::<u64, Seq<u8>>::empty()
                &&& s.spec_pending()@ == Seq::<TransactionWrite>::empty()
                &&& s.spec_pending().spec_id() == 1
                &&& s.spec_next_tx_id() == 2
                &&& spec_from_tree(mount_root@, entries@, snapshot) matches Ok((ns, nx)) && same_but_clusters(ns, s.spec_nodes())
                    && s.spec_index_next_id() == nx && s.spec_root_id() == NodeId(1)
                    && s.spec_mount_root() == mount_root@
                &&& forest_found(s.spec_nodes(), seq!['/'], entries@)
                &&& first_with_path(s.spec_metadata().spec_store(), seq!['/']) is Some
                &&& find_path(s.spec_nodes(), seq!['/']) matches Some(i) && s.spec_nodes()[i].id == NodeId(1)
            },
    {
        let (index, volume) = match build_parts(mount_root, entries, &snapshot, source_size_bytes) {
            Ok(p) => p,
            Err(e) => {
                return Err(e);
            },
        };
        let ghost ns = spec_from_tree(mount_root@, entries@, snapshot)->Ok_0.0;
        let ghost nn = index.spec_nodes();
        let ghost b = tree_builder(entries@, snapshot);
        let ghost d = volume_dirs(entries@, snapshot);
        let ghost hyp = real_paths_distinct(ns);
        proof {
            lemma_built_tree_lookup(mount_root@, entries@, snapshot);
            lemma_built_root(mount_root@, entries@, snapshot);
            let ms = index.spec_nodes();
            lemma_same_but_keeps(ns, ms);
            lemma_forest_found_kept(ns, ms, seq!['/'], entries@);
            lemma_volume_plan(entries@, snapshot, ns, source_size_bytes);
            assert(ms[0].virtual_path == seq!['/'] && ms[0].id == NodeId(1)) by {
                assert(same_place(ms[0], ns[0]));
            }
            lemma_find_path_in_kept(ns, ms, seq!['/']);
            assert(nn.len() > 0);
        }
        let layout: DiskLayout = *volume.layout();
        let ghost t = layout.total_sectors;
        let ghost cc = layout.cluster_count;
        proof {
            assert(layout.total_sectors == layout.heap_start() + 8 * layout.cluster_count);
            let fl = layout.fat_length_sectors as int;
            assert(crate::layout::spec_align_up(24 + fl, 8) >= 24 + fl) by (nonlinear_arith);
        }
        let mut directory_store = DirectoryStore::new();
        let mut fat = FatState::new(layout.cluster_count);
        let mut bitmap = BitmapState::new(layout.cluster_count);
        let mut owners = SectorOwnerMap::new(layout.total_sectors);
        owners.register_cluster_range(FIRST_CLUSTER, layout.cluster_to_sector(FIRST_CLUSTER), layout.cluster_count, 8);
        let ghost rs0 = owners.spec_ranges();
        if let Err(e) = owners.mark_range(0, 1, SectorOwner::Mbr) {
            return Err(e);
        }
        proof {
            if hyp {
                lemma_push_range(directory_store@, bitmap@, bitmap@, layout, t, rs0, owners.spec_lookup(),
                    OwnerRange { start: 0, len: 1, owner: SectorOwner::Mbr }, nn, -1, 0, 0);
            }
        }
        let ghost rs1 = owners.spec_ranges();
        if let Err(e) = owners.mark_range(PARTITION_OFFSET_SECTORS, BOOT_REGION_SECTORS, SectorOwner::BootRegion) {
            return Err(e);
        }
        proof {
            if hyp {
                lemma_push_range(directory_store@, bitmap@, bitmap@, layout, t, rs1, owners.spec_lookup(),
                    OwnerRange { start: 2048, len: 12, owner: SectorOwner::BootRegion }, nn, -1, 0, 0);
            }
        }
        let ghost rs2 = owners.spec_ranges();
        if let Err(e) = owners.mark_range(
            PARTITION_OFFSET_SECTORS + BOOT_REGION_SECTORS,
            BOOT_REGION_SECTORS,
            SectorOwner::BackupBootRegion,
        ) {
            return Err(e);
        }
        proof {
            if hyp {
                lemma_push_range(directory_store@, bitmap@, bitmap@, layout, t, rs2, owners.spec_lookup(),
                    OwnerRange { start: 2060, len: 12, owner: SectorOwner::BackupBootRegion }, nn, -1, 0, 0);
            }
        }
        if layout.fat_offset_sectors > u64::MAX - PARTITION_OFFSET_SECTORS {
            return Err(io_error(ErrorKind::InvalidInput, "FAT lies beyond the disk"));
        }
        let ghost rs3 = owners.spec_ranges();
        if let Err(e) = owners.mark_range(PARTITION_OFFSET_SECTORS + layout.fat_offset_sectors, layout.fat_length_sectors, SectorOwner::Fat) {
            return Err(e);
        }
        proof {
            if hyp {
                if layout.fat_length_sectors > 0 {
                    lemma_push_range(directory_store@, bitmap@, bitmap@, layout, t, rs3, owners.spec_lookup(),
                        OwnerRange { start: 2072, len: layout.fat_length_sectors, owner: SectorOwner::Fat }, nn, -1, 0, 0);
                }
            }
        }
        if layout.cluster_count > 1 {
            let bitmap_cluster: u32 = FIRST_CLUSTER + 1;
            let ghost bm0 = bitmap@;
            if let Err(e) = bitmap.mark_allocated(bitmap_cluster) {
                return Err(e);
            }
            let one: [u32; 1] = [bitmap_cluster];
            if let Err(e) = fat.set_chain(&one) {
                return Err(e);
            }
            let ghost rs4 = owners.spec_ranges();
            proof {
                lemma_sec(layout, 3);
            }
            if let Err(e) = owners.mark_range(layout.cluster_to_sector(bitmap_cluster), 8, SectorOwner::AllocationBitmap) {
                return Err(e);
            }
            proof {
                if hyp {
                    lemma_push_range(directory_store@, bm0, bitmap@, layout, t, rs4, owners.spec_lookup(),
                        OwnerRange { start: sec(layout, 3), len: 8, owner: SectorOwner::AllocationBitmap }, nn, -1, 0, 0);
                }
            }
        }
        let dirs = volume.directory_cluster_entries();
        let ghost mut src: Seq<int> = seq![];
        let mut i: usize = 0;
        while i < dirs.len()
            invariant
                layout.wf(),
                spec_from_tree(mount_root@, entries@, snapshot) is Ok,
                ns == spec_from_tree(mount_root@, entries@, snapshot)->Ok_0.0,
                hyp == real_paths_distinct(ns),
                b == tree_builder(entries@, snapshot),
                d == volume_dirs(entries@, snapshot),
                hyp ==> cc + 2 <= u32::MAX,
                hyp ==> same_but_clusters(ns, nn),
                bitmap.wf(),
                owners.wf(),
                owners.spec_total() == layout.total_sectors,
                volume.spec_layout() == layout,
                t == layout.total_sectors,
                cc == layout.cluster_count,
                bitmap.spec_cluster_count() == cc,
                fat.spec_cluster_count() == cc,
                index.spec_nodes() == nn,
                nn.len() > 0,
                nn[0].virtual_path == seq!['/'],
                i <= dirs@.len(),
                dirs@.map_values(|x: (String, Vec<u32>)| (x.0@, x.1@)) == d,
                d[0].0 == seq!['/'],
                i > 0 ==> exists|x: int| 0 <= x < directory_store@.len() && (#[trigger] directory_store@[x]).virtual_path@ == seq!['/'],
                hyp ==> dirs_apart(d, b.maps, 2, cc + 2, ns),
                hyp ==> records_owned(directory_store@, bitmap@, layout, t, owners.spec_ranges(), owners.spec_lookup(), -1, 0),
                hyp ==> alloc_owned(bitmap@, layout, t, owners.spec_ranges(), owners.spec_lookup()),
                hyp ==> ranges_named(nn, owners.spec_ranges()),
                hyp ==> records_from(directory_store@, src, d, i as int, nn),
            decreases dirs@.len() - i,
        {
            let path = &dirs[i].0;
            let clusters = &dirs[i].1;
            proof {
                assert(d[i as int] == (path@, clusters@));
            }
            let nodes = index.iter_nodes();
            match last_with_virtual_path(nodes, path.as_str()) {
                None => {
                    proof {
                        if i == 0 {
                            assert(crate::vfs::node::nodes_view(nodes@)[0] == nodes@[0]@);
                            assert(nodes@[0].virtual_path@ == path@);
                        }
                        if i > 0 {
                            let x0 = choose|x: int| 0 <= x < directory_store@.len() && (#[trigger] directory_store@[x]).virtual_path@ == seq!['/'];
                        }
                    }
                },
                Some(k) => {
                    let id = nodes[k].id;
                    proof {
                        assert(crate::vfs::node::nodes_view(nodes@)[k as int] == nodes@[k as int]@);
                        assert(nn[k as int].id == id);
                        crate::vfs::index::lemma_find_id(nn, id, 0);
                    }
                    let ghost store0 = directory_store@;
                    let ghost idx: int = match first_with_path(store0, path@) {
                        Some(x) => x,
                        None => store0.len() as int,
                    };
                    proof {
                        if hyp {
                            assert forall|j: int| 0 <= j < clusters@.len() implies 2 <= #[trigger] clusters@[j] < layout.cluster_count + 2 by {
                                assert(clusters@[j] == d[i as int].1[j]);
                            }
                            assert forall|x: int, j: int|
                                0 <= x < store0.len() && 0 <= j < store0[x].clusters@.len() implies 2 <= #[trigger] store0[x].clusters@[j]
                                < layout.cluster_count + 2 by {
                                assert(store0[x].clusters@[j] == d[src[x]].1[j]);
                            }
                            assert forall|x: int, j: int, jj: int|
                                0 <= x < store0.len() && 0 <= j < store0[x].clusters@.len() && 0 <= jj < clusters@.len() implies #[trigger] store0[x].clusters@[j]
                                != #[trigger] clusters@[jj] by {
                                assert(0 <= src[x] < i);
                                assert(store0[x].clusters@[j] == d[src[x]].1[j]);
                                assert(clusters@[jj] == d[i as int].1[jj]);
                            }
                        }
                    }
                    match record_directory(&mut directory_store, &mut fat, &mut bitmap, &mut owners, &layout, path, clusters, id, Ghost(hyp), Ghost(nn)) {
                        Ok(()) => {},
                        Err(e) => {
                            return Err(e);
                        },
                    }
                    proof {
                        crate::exfat::directory_store::lemma_first_with_path_in(store0, path@);
                        src = if idx < store0.len() { src.update(idx, i as int) } else { src.push(i as int) };
                        if hyp {
                            assert forall|x: int| 0 <= x < directory_store@.len() implies 0 <= #[trigger] src[x] < i + 1 && i + 1 <= d.len()
                                && directory_store@[x].clusters@ == d[src[x]].1 && directory_store@[x].virtual_path@ == d[src[x]].0
                                && find_id(nn, directory_store@[x].node_id) is Some by {
                                if x != idx {
                                    assert(directory_store@[x] == store0[x]);
                                }
                            }
                        }
                        if path@ == seq!['/'] {
                            assert(directory_store@[idx].virtual_path@ == seq!['/']);
                        } else if i > 0 {
                            let x0 = choose|x: int| 0 <= x < store0.len() && (#[trigger] store0[x]).virtual_path@ == seq!['/'];
                            if x0 == idx {
                                assert(directory_store@[idx].virtual_path@ == path@);
                                assert(false);
                            }
                            assert(directory_store@[x0] == store0[x0]);
                        }
                    }
                },
            }
            i = i + 1;
        }
        proof {
            assert(dirs@.len() == d.len());
            assert(d.len() >= 1);
        }
        let sectors = volume.metadata_sector_numbers();
        let mut k: usize = 0;
        while k < sectors.len()
            invariant
                layout.wf(),
                spec_from_tree(mount_root@, entries@, snapshot) is Ok,
                ns == spec_from_tree(mount_root@, entries@, snapshot)->Ok_0.0,
                hyp == real_paths_distinct(ns),
                b == tree_builder(entries@, snapshot),
                d == volume_dirs(entries@, snapshot),
                hyp ==> cc + 2 <= u32::MAX,
                hyp ==> same_but_clusters(ns, nn),
                bitmap.wf(),
                owners.wf(),
                owners.spec_total() == layout.total_sectors,
                volume.spec_layout() == layout,
                t == layout.total_sectors,
                cc == layout.cluster_count,
                bitmap.spec_cluster_count() == cc,
                fat.spec_cluster_count() == cc,
                index.spec_nodes() == nn,
                dirs@.map_values(|x: (String, Vec<u32>)| (x.0@, x.1@)) == d,
                exists|x: int| 0 <= x < directory_store@.len() && (#[trigger] directory_store@[x]).virtual_path@ == seq!['/'],
                hyp ==> dirs_apart(d, b.maps, 2, cc + 2, ns),
                hyp ==> records_owned(directory_store@, bitmap@, layout, t, owners.spec_ranges(), owners.spec_lookup(), -1, 0),
                hyp ==> alloc_owned(bitmap@, layout, t, owners.spec_ranges(), owners.spec_lookup()),
                hyp ==> ranges_named(nn, owners.spec_ranges()),
                hyp ==> records_from(directory_store@, src, d, d.len() as int, nn),
            decreases sectors@.len() - k,
        {
            let sector = sectors[k];
            let owner = match layout.sector_to_cluster(sector) {
                Some(c) => if bitmap.is_allocated(c) {
                    owners.owner_of(sector)
                } else {
                    SectorOwner::AllocationBitmap
                },
                None => owners.owner_of(sector),
            };
            let free = match owner {
                SectorOwner::FreeCluster { .. } => true,
                SectorOwner::Reserved => true,
                _ => false,
            };
            if free {
                let ghost rsb = owners.spec_ranges();
                if let Err(e) = owners.mark_range(sector, 1, SectorOwner::UpcaseTable) {
                    return Err(e);
                }
                proof {
                    if hyp {
                        let r = OwnerRange { start: sector, len: 1, owner: SectorOwner::UpcaseTable };
                        let st = directory_store@;
                        assert forall|x: int, jj: int|
                            0 <= x < st.len() && 0 <= jj < st[x].clusters@.len() && (x != -1 || jj < 0) implies {
                            let c2 = #[trigger] st[x].clusters@[jj];
                            &&& bitmap@.contains(c2)
                            &&& ((x != -1 || jj < 0) && !(r.start <= sec(layout, c2) < r.start + r.len)) || (r.start <= sec(layout, c2)
                                < r.start + r.len && sec(layout, c2) < t && dir_owner_ok(st[x], r.owner))
                        } by {
                            let c2 = st[x].clusters@[jj];
                            assert(dir_owner_ok(st[x], crate::exfat::sector_owner::owner_in(t, rsb, owners.spec_lookup(), sec(layout, c2))));
                        }
                        lemma_push_range(st, bitmap@, bitmap@, layout, t, rsb, owners.spec_lookup(), r, nn, -1, 0, 0);
                    }
                }
            }
            k = k + 1;
        }
        let ranges = volume.file_data_range_entries();
        proof {
            assert forall|q: int| 0 <= q < b.maps.len() implies #[trigger] ranges_view(ranges@)[q] == range_of(layout, b.maps[q]) by {
                assert(volume.spec_ranges()[q] == range_of(volume.spec_layout(), b.maps[q]));
            }
        }
        let mut m: usize = 0;
        while m < ranges.len()
            invariant
                layout.wf(),
                spec_from_tree(mount_root@, entries@, snapshot) is Ok,
                ns == spec_from_tree(mount_root@, entries@, snapshot)->Ok_0.0,
                hyp == real_paths_distinct(ns),
                b == tree_builder(entries@, snapshot),
                d == volume_dirs(entries@, snapshot),
                hyp ==> cc + 2 <= u32::MAX,
                hyp ==> same_but_clusters(ns, nn),
                bitmap.wf(),
                owners.wf(),
                owners.spec_total() == layout.total_sectors,
                volume.spec_layout() == layout,
                t == layout.total_sectors,
                cc == layout.cluster_count,
                bitmap.spec_cluster_count() == cc,
                fat.spec_cluster_count() == cc,
                index.spec_nodes() == nn,
                ranges_view(ranges@).len() == b.maps.len(),
                forall|q: int| 0 <= q < b.maps.len() ==> #[trigger] ranges_view(ranges@)[q] == range_of(layout, b.maps[q]),
                exists|x: int| 0 <= x < directory_store@.len() && (#[trigger] directory_store@[x]).virtual_path@ == seq!['/'],
                hyp ==> dirs_apart(d, b.maps, 2, cc + 2, ns),
                hyp ==> files_inside(b.maps, 4, cc + 2, ns),
                hyp ==> records_owned(directory_store@, bitmap@, layout, t, owners.spec_ranges(), owners.spec_lookup(), -1, 0),
                hyp ==> alloc_owned(bitmap@, layout, t, owners.spec_ranges(), owners.spec_lookup()),
                hyp ==> ranges_named(nn, owners.spec_ranges()),
                hyp ==> records_from(directory_store@, src, d, d.len() as int, nn),
            decreases ranges@.len() - m,
        {
            let info = &ranges[m];
            let nodes = index.iter_nodes();
            proof {
                assert(ranges_view(ranges@)[m as int] == range_of(layout, b.maps[m as int]));
            }
            match last_with_real_path(nodes, info.real_path.as_str()) {
                None => {},
                Some(q) => {
                    let owner = SectorOwner::FileDataRange {
                        node_id: nodes[q].id.0,
                        file_offset: info.offset,
                        byte_len: info.byte_len,
                    };
                    let ghost rsb = owners.spec_ranges();
                    let ghost mp = b.maps[m as int];
                    proof {
                        if hyp {
                            let s0 = mp.start_cluster;
                            let n0 = crate::exfat::volume::file_clusters_spec(mp.file_size);
                            lemma_sec(layout, s0);
                            lemma_sectors_in_clusters(mp.file_size);
                            assert((mp.file_size + 4095) / 4096 <= n0);
                            assert(info.start_sector == sec(layout, s0));
                            assert(info.sector_count <= 8 * n0);
                            assert(sec(layout, s0) + 8 * n0 <= t) by {
                                if s0 + n0 < cc + 2 {
                                    lemma_sec(layout, (s0 + n0) as u32);
                                }
                            }
                        }
                    }
                    if let Err(e) = owners.mark_range(info.start_sector, info.sector_count, owner) {
                        return Err(e);
                    }
                    proof {
                        if hyp && info.sector_count > 0 {
                            let r = OwnerRange { start: info.start_sector, len: info.sector_count, owner };
                            let st = directory_store@;
                            let s0 = mp.start_cluster;
                            let n0 = crate::exfat::volume::file_clusters_spec(mp.file_size);
                            assert forall|x: int, jj: int|
                                0 <= x < st.len() && 0 <= jj < st[x].clusters@.len() && (x != -1 || jj < 0) implies {
                                let c2 = #[trigger] st[x].clusters@[jj];
                                &&& bitmap@.contains(c2)
                                &&& ((x != -1 || jj < 0) && !(r.start <= sec(layout, c2) < r.start + r.len)) || (r.start <= sec(layout, c2)
                                    < r.start + r.len && sec(layout, c2) < t && dir_owner_ok(st[x], r.owner))
                            } by {
                                let c2 = st[x].clusters@[jj];
                                assert(c2 == d[src[x]].1[jj]);
                                assert(!crate::exfat::volume_plan::in_file(b.maps[m as int], d[src[x]].1[jj] as int));
                                lemma_sec_outside(layout, c2, s0, n0);
                            }
                            lemma_push_range(st, bitmap@, bitmap@, layout, t, rsb, owners.spec_lookup(), r, nn, -1, 0, 0);
                        }
                    }
                },
            }
            m = m + 1;
        }
        let mut metadata = ExfatMetadataState::new(fat, bitmap, directory_store, owners);
        let mut n: usize = 0;
        while n < ranges.len()
            invariant
                layout.wf(),
                spec_from_tree(mount_root@, entries@, snapshot) is Ok,
                ns == spec_from_tree(mount_root@, entries@, snapshot)->Ok_0.0,
                hyp == real_paths_distinct(ns),
                b == tree_builder(entries@, snapshot),
                d == volume_dirs(entries@, snapshot),
                hyp ==> cc + 2 <= u32::MAX,
                hyp ==> same_but_clusters(ns, nn),
                metadata.wf(),
                metadata.spec_total() == layout.total_sectors,
                volume.spec_layout() == layout,
                t == layout.total_sectors,
                cc == layout.cluster_count,
                metadata.spec_fat_count() == cc,
                metadata.spec_bitmap_count() == cc,
                index.spec_nodes() == nn,
                ranges_view(ranges@).len() == b.maps.len(),
                forall|q: int| 0 <= q < b.maps.len() ==> #[trigger] ranges_view(ranges@)[q] == range_of(layout, b.maps[q]),
                exists|x: int| 0 <= x < metadata.spec_store().len() && (#[trigger] metadata.spec_store()[x]).virtual_path@ == seq!['/'],
                hyp ==> dirs_apart(d, b.maps, 2, cc + 2, ns),
                hyp ==> files_inside(b.maps, 4, cc + 2, ns),
                hyp ==> records_owned(metadata.spec_store(), metadata.spec_bitmap(), layout, t, metadata.spec_ranges(), metadata.spec_lookup(), -1, 0),
                hyp ==> alloc_owned(metadata.spec_bitmap(), layout, t, metadata.spec_ranges(), metadata.spec_lookup()),
                hyp ==> ranges_named(nn, metadata.spec_ranges()),
                hyp ==> records_from(metadata.spec_store(), src, d, d.len() as int, nn),
            decreases ranges@.len() - n,
        {
            let info = &ranges[n];
            let nodes = index.iter_nodes();
            proof {
                assert(ranges_view(ranges@)[n as int] == range_of(layout, b.maps[n as int]));
            }
            match last_with_real_path(nodes, info.real_path.as_str()) {
                None => {},
                Some(q) => {
                    let ghost mp = b.maps[n as int];
                    proof {
                        if hyp {
                            assert(crate::exfat::volume::file_clusters_spec(mp.file_size) >= 1);
                            lemma_sec(layout, mp.start_cluster);
                            assert(info.start_sector == sec(layout, mp.start_cluster));
                        }
                    }
                    match layout.sector_to_cluster(info.start_sector) {
                        None => {},
                        Some(first_cluster) => {
                            proof {
                                if hyp {
                                    assert(first_cluster == mp.start_cluster);
                                }
                            }
                            let id = nodes[q].id;
                            let size = nodes[q].size;
                            let count = file_cluster_count(size);
                            proof {
                                assert(crate::vfs::node::nodes_view(nodes@)[q as int] == nodes@[q as int]@);
                                assert(nn[q as int].id == id && nn[q as int].size == size);
                                crate::vfs::index::lemma_find_id(nn, id, 0);
                                if hyp {
                                    assert(nodes@[q as int].real_path@ == info.real_path@);
                                    assert(nn[q as int].real_path == mp.real_path);
                                    lemma_file_fits(ns, nn, mp, q as int, size, count);
                                }
                            }
                            if count > 0 {
                                let mut clusters: Vec<u32> = Vec::new();
                                let mut off: u32 = 0;
                                while off < count
                                    invariant
                                        off <= count,
                                        clusters@.len() == off,
                                        forall|z: int| 0 <= z < off && first_cluster + z <= u32::MAX ==> clusters@[z] == first_cluster + z,
                                    decreases count - off,
                                {
                                    clusters.push(first_cluster.wrapping_add(off));
                                    off = off + 1;
                                }
                                let chain = ClusterChain { first_cluster, clusters };
                                let ghost m0 = metadata;
                                proof {
                                    if hyp {
                                        assert forall|z: int| 0 <= z < chain.clusters@.len() implies #[trigger] chain.clusters@[z] == mp.start_cluster + z by {}
                                        assert forall|z: int| 0 <= z < chain.clusters@.len() implies cluster_in_range(#[trigger] chain.clusters@[z], cc) by {}
                                        let fr = file_ranges(layout, id, chain.clusters@, size);
                                        assert forall|z: int| 0 <= z < fr.len() implies (#[trigger] fr[z]).start + fr[z].len <= t by {
                                            lemma_sec(layout, chain.clusters@[z / 8]);
                                        }
                                    }
                                }
                                if let Err(e) = metadata.set_file_chain(&layout, id, &chain, size) {
                                    return Err(e);
                                }
                                proof {
                                    if hyp {
                                        lemma_chain_marks(m0, metadata, layout, t, id, chain.clusters@, size, nn, d, src, b.maps, n as int, ns);
                                    }
                                }
                            }
                        },
                    }
                },
            }
            n = n + 1;
        }
        let state = ExfatRuntimeState {
            index,
            volume,
            metadata,
            metadata_overlay: MetadataOverlay::new(),
            snapshot,
            mount_root: String::from_str(mount_root),
            pending_tx: PendingTransaction::new(1),
            next_tx_id: 2,
        };
        proof {
            let ex = choose|x: int| 0 <= x < state.metadata.spec_store().len() && (#[trigger] state.metadata.spec_store()[x]).virtual_path@ == seq!['/'];
            assert(state.metadata.spec_store()[ex].virtual_path@ == seq!['/']);
            if hyp {
                lemma_assembled_consistent(state.metadata, nn, layout, t, src, d);
            }
        }
        match state.validate_consistency() {
            Ok(()) => Ok(state),
            Err(e) => Err(e),
        }
    }
}

impl ExfatRuntimeState {
    pub closed spec fn spec_volume_files(&self) -> Map<u64, FileSectorView> {
        self.volume.spec_files()
    }

    /// What the generated volume holds at `sector`.
    pub open spec fn spec_volume_content(&self, sector: u64) -> VolumeContentView {
        if sector >= self.spec_layout().total_sectors {
            VolumeContentView::Zero
        } else if self.spec_volume_metadata().contains_key(sector) {
            VolumeContentView::Metadata(self.spec_volume_metadata()[sector])
        } else if self.spec_volume_files().contains_key(sector) {
            VolumeContentView::FileData(self.spec_volume_files()[sector])
        } else {
            VolumeContentView::Zero
        }
    }

    /// The committed overlay of `sector`, if any.
    pub fn overlay_sector(&self, sector: u64) -> (r: Option<&[u8]>)
        ensures
            match r {
                Some(d) => self.spec_overlay().contains_key(sector) && d@ == self.spec_overlay()[sector],
                None => !self.spec_overlay().contains_key(sector),
            },
    {
        self.metadata_overlay.read_sector(sector)
    }

    /// What the generated volume holds at `sector`.
    pub fn volume_sector(&self, sector: u64) -> (r: SectorContent)
        ensures
            match self.spec_volume_content(sector) {
                VolumeContentView::Zero => r is Zero,
                VolumeContentView::Metadata(d) => r matches SectorContent::Metadata(x) && x@ == d,
                VolumeContentView::FileData(f) => r matches SectorContent::FileData { real_path, offset, valid_bytes, blocked }
                    && real_path@ == f.real_path && offset == f.offset && valid_bytes == f.valid_bytes && blocked == f.blocked,
            },
    {
        self.volume.read_sector(sector)
    }

    /// The end of the virtual disk, in bytes.
    pub fn end_byte_exclusive(&self) -> (r: u64)
        requires
            self.wf(),
        ensures
            r == self.spec_layout().total_sectors * 512,
    {
        self.volume.layout().end_byte_exclusive()
    }
}

/// Mathematical form of a volume sector's content.
pub enum VolumeContentView {
    Metadata(Seq<u8>),
    FileData(FileSectorView),
    Zero,
}

} // verus!
