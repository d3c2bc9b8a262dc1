//! Authoritative runtime exFAT metadata: FAT, allocation bitmap, directory
//! clusters and sector owners.
use vstd::prelude::*;
use crate::error::{io_error, ErrorKind, IoError};
use crate::exfat::bitmap_state::{cluster_in_range, BitmapState};
use crate::exfat::directory_store::{first_with_path, DirectoryRecord, DirectoryStore};
use crate::exfat::fat_state::{link_prefix, spec_chain_from, FatState};
use crate::exfat::sector_owner::{OwnerRange, SectorOwner, SectorOwnerMap};
use crate::layout::DiskLayout;
use crate::strings::str_eq;
use vstd::string::StringExecFns;
use crate::vfs::index::{find_id, VfsIndex};
use crate::vfs::mutation::ClusterChain;
use crate::vfs::node::NodeId;

verus! {

/// The runtime metadata of the virtual volume.
#[derive(Debug)]
pub struct ExfatMetadataState {
    fat: FatState,
    bitmap: BitmapState,
    directory_store: DirectoryStore,
    sector_owners: SectorOwnerMap,
}

/// The clusters `cs[..n]` as a set.
pub open spec fn set_of(cs: Seq<u32>, n: int) -> Set<u32>
    decreases n,
{
    if n <= 0 || n > cs.len() {
        Set::empty()
    } else {
        set_of(cs, n - 1).insert(cs[n - 1])
    }
}

/// `m` without the keys `cs[..n]`.
pub open spec fn without_keys(m: Map<u32, u32>, cs: Seq<u32>, n: int) -> Map<u32, u32>
    decreases n,
{
    if n <= 0 || n > cs.len() {
        m
    } else {
        without_keys(m, cs, n - 1).remove(cs[n - 1])
    }
}

/// Every cluster of `cs` is a data cluster of a volume of `count` clusters.
pub open spec fn all_in_range(cs: Seq<u32>, count: u32) -> bool {
    forall|i: int| 0 <= i < cs.len() ==> cluster_in_range(#[trigger] cs[i], count)
}

/// The owner of a directory's clusters.
pub open spec fn dir_owner(path: Seq<char>, node: NodeId) -> SectorOwner {
    if path == seq!['/'] {
        SectorOwner::RootDirectory
    } else {
        SectorOwner::DirectoryData { node_id: node.0 }
    }
}

/// The whole of cluster `c`, owned by `owner`.
pub open spec fn cluster_range(layout: DiskLayout, c: u32, owner: SectorOwner) -> OwnerRange {
    OwnerRange { start: layout.spec_cluster_to_sector(c as int) as u64, len: 8, owner }
}

/// The clusters `cs`, each owned by `owner`.
pub open spec fn owned_ranges(layout: DiskLayout, cs: Seq<u32>, owner: SectorOwner) -> Seq<OwnerRange> {
    Seq::new(cs.len(), |i: int| cluster_range(layout, cs[i], owner))
}

/// The clusters `cs`, each marked free.
pub open spec fn free_ranges(layout: DiskLayout, cs: Seq<u32>) -> Seq<OwnerRange> {
    Seq::new(cs.len(), |i: int| cluster_range(layout, cs[i], SectorOwner::FreeCluster { cluster: cs[i] }))
}

/// The owner of the `j`-th sector of a file of `size` bytes: its data up to the
/// size, zero-filled allocation after it.
pub open spec fn file_sector_owner(node: NodeId, size: u64, j: int) -> SectorOwner {
    let off = 512 * j;
    if size <= off {
        SectorOwner::AllocatedZero { node_id: node.0, file_offset: off as u64 }
    } else {
        SectorOwner::FileData {
            node_id: node.0,
            file_offset: off as u64,
            valid_bytes: (if size - off >= 512 {
                512
            } else {
                size - off
            }) as u32,
        }
    }
}

/// One-sector ranges for every sector of the file chain `cs`.
pub open spec fn file_ranges(layout: DiskLayout, node: NodeId, cs: Seq<u32>, size: u64) -> Seq<OwnerRange> {
    Seq::new(
        8 * cs.len(),
        |j: int|
            OwnerRange {
                start: (layout.spec_cluster_to_sector(cs[j / 8] as int) + j % 8) as u64,
                len: 1,
                owner: file_sector_owner(node, size, j),
            },
    )
}

/// Every range lies inside a disk of `total` sectors.
pub open spec fn ranges_fit(rs: Seq<OwnerRange>, total: u64) -> bool {
    forall|i: int| 0 <= i < rs.len() ==> (#[trigger] rs[i]).start + rs[i].len <= total
}

/// The metadata as mathematical values: FAT links, allocated clusters,
/// directory records, owner ranges, and the sizes (FAT clusters, bitmap
/// clusters, disk sectors).
pub struct MetaView {
    pub fat: Map<u32, u32>,
    pub bitmap: Set<u32>,
    pub store: Seq<DirectoryRecord>,
    pub ranges: Seq<OwnerRange>,
    pub counts: (u32, u32, u64),
}

/// `v` with `cluster` freed (bitmap, FAT link, free owner range), or `None`
/// when the cluster is out of range or its range leaves the disk.
pub open spec fn free_one(v: MetaView, layout: DiskLayout, cluster: u32) -> Option<MetaView> {
    if cluster_in_range(cluster, v.counts.1) && cluster_in_range(cluster, v.counts.0) && ranges_fit(
        free_ranges(layout, seq![cluster]),
        v.counts.2,
    ) {
        Some(
            MetaView {
                bitmap: v.bitmap.remove(cluster),
                fat: v.fat.remove(cluster),
                ranges: v.ranges + free_ranges(layout, seq![cluster]),
                ..v
            },
        )
    } else {
        None
    }
}

/// `v` with `len` sectors from `start` owned by `owner`, or `None` when they
/// leave the disk.
pub open spec fn mark_range_view(v: MetaView, start: u64, len: u64, owner: SectorOwner) -> Option<MetaView> {
    if len == 0 {
        Some(v)
    } else if start + len <= v.counts.2 {
        Some(MetaView { ranges: v.ranges.push(OwnerRange { start, len, owner }), ..v })
    } else {
        None
    }
}

impl ExfatMetadataState {
    pub closed spec fn spec_fat(&self) -> Map<u32, u32> {
        self.fat@
    }

    pub closed spec fn spec_fat_count(&self) -> u32 {
        self.fat.spec_cluster_count()
    }

    pub closed spec fn spec_bitmap(&self) -> Set<u32> {
        self.bitmap@
    }

    pub closed spec fn spec_bitmap_count(&self) -> u32 {
        self.bitmap.spec_cluster_count()
    }

    pub closed spec fn spec_store(&self) -> Seq<DirectoryRecord> {
        self.directory_store@
    }

    pub closed spec fn spec_ranges(&self) -> Seq<OwnerRange> {
        self.sector_owners.spec_ranges()
    }

    pub closed spec fn spec_total(&self) -> u64 {
        self.sector_owners.spec_total()
    }

    pub closed spec fn spec_owner(&self, sector: u64) -> SectorOwner {
        self.sector_owners.spec_owner_of(sector)
    }

    /// The registered free-cluster runs of the sector map.
    pub closed spec fn spec_lookup(&self) -> Seq<(u32, u64, u64, u64)> {
        self.sector_owners.spec_lookup()
    }

    /// The owner of a sector, from the sector map's parts.
    pub proof fn lemma_owner_def(&self, sector: u64)
        ensures
            self.spec_owner(sector) == crate::exfat::sector_owner::owner_in(
                self.spec_total(),
                self.spec_ranges(),
                self.spec_lookup(),
                sector,
            ),
    {
    }

    /// A sector past the disk is out of range.
    pub proof fn lemma_owner_past_disk(&self, sector: u64)
        ensures
            sector >= self.spec_total() ==> self.spec_owner(sector) is OutOfRange,
    {
    }

    /// The sizes the metadata was made for: FAT clusters, bitmap clusters and
    /// disk sectors.
    pub open spec fn spec_counts(&self) -> (u32, u32, u64) {
        (self.spec_fat_count(), self.spec_bitmap_count(), self.spec_total())
    }

    /// The whole of the metadata as mathematical values.
    pub open spec fn mview(&self) -> MetaView {
        MetaView {
            fat: self.spec_fat(),
            bitmap: self.spec_bitmap(),
            store: self.spec_store(),
            ranges: self.spec_ranges(),
            counts: self.spec_counts(),
        }
    }

    /// The bitmap and the sector map are well formed.
    pub closed spec fn wf(&self) -> bool {
        self.bitmap.wf() && self.sector_owners.wf()
    }

    /// Metadata made of its parts.
    pub fn new(fat: FatState, bitmap: BitmapState, directory_store: DirectoryStore, sector_owners: SectorOwnerMap) -> (s:
        Self)
        requires
            bitmap.wf(),
            sector_owners.wf(),
        ensures
            s.wf(),
            s.spec_fat() == fat@,
            s.spec_fat_count() == fat.spec_cluster_count(),
            s.spec_bitmap() == bitmap@,
            s.spec_bitmap_count() == bitmap.spec_cluster_count(),
            s.spec_store() == directory_store@,
            s.spec_ranges() == sector_owners.spec_ranges(),
            s.spec_total() == sector_owners.spec_total(),
            s.spec_lookup() == sector_owners.spec_lookup(),
            forall|x: u64| s.spec_owner(x) == sector_owners.spec_owner_of(x),
    {
        ExfatMetadataState { fat, bitmap, directory_store, sector_owners }
    }

    /// The directory records.
    pub fn directory_store(&self) -> (r: &DirectoryStore)
        ensures
            r@ == self.spec_store(),
    {
        &self.directory_store
    }

    /// The clusters of the directory at `path`.
    pub fn directory_clusters(&self, path: &str) -> (r: Option<&[u32]>)
        ensures
            match first_with_path(self.spec_store(), path@) {
                Some(i) => r matches Some(c) && c@ == self.spec_store()[i].clusters@,
                None => r is None,
            },
    {
        self.directory_store.directory_clusters(path)
    }

    /// The owner of `sector`.
    pub fn owner_of(&self, sector: u64) -> (o: SectorOwner)
        requires
            self.wf(),
        ensures
            o == self.spec_owner(sector),
    {
        self.sector_owners.owner_of(sector)
    }

    /// The allocated clusters, each once.
    pub fn allocated_clusters(&self) -> (v: Vec<u32>)
        requires
            self.wf(),
        ensures
            v@.to_set() == self.spec_bitmap(),
            v@.no_duplicates(),
    {
        self.bitmap.allocated_clusters()
    }

    /// The explicitly marked ranges, oldest first.
    pub fn explicit_ranges(&self) -> (v: Vec<(u64, u64, SectorOwner)>)
        ensures
            v@.len() == self.spec_ranges().len(),
            forall|i: int| 0 <= i < v@.len() ==> #[trigger] v@[i] == (self.spec_ranges()[i].start,
                self.spec_ranges()[i].len, self.spec_ranges()[i].owner),
    {
        self.sector_owners.explicit_ranges()
    }

    /// Whether `cluster` is allocated.
    pub fn is_allocated(&self, cluster: u32) -> (r: bool)
        ensures
            r == self.spec_bitmap().contains(cluster),
    {
        self.bitmap.is_allocated(cluster)
    }

    /// The FAT link of `cluster`.
    pub fn fat_entry_for(&self, cluster: u32) -> (r: Option<u32>)
        ensures
            r == (if self.spec_fat().contains_key(cluster) { Some(self.spec_fat()[cluster]) } else { None::<u32> }),
    {
        self.fat.entry_for(cluster)
    }

    /// The FAT chain from `first_cluster`.
    pub fn chain_from(&self, first_cluster: u32) -> (r: Result<Vec<u32>, IoError>)
        ensures
            match spec_chain_from(self.spec_fat(), first_cluster, self.spec_fat_count()) {
                Some(c) => r matches Ok(v) && v@ == c,
                None => r is Err,
            },
    {
        self.fat.chain_from(first_cluster)
    }

    /// The number of clusters the FAT covers.
    pub fn fat_cluster_count(&self) -> (r: u32)
        ensures
            r == self.spec_fat_count(),
    {
        self.fat.cluster_count()
    }

    /// The number of clusters the bitmap covers.
    pub fn bitmap_cluster_count(&self) -> (r: u32)
        ensures
            r == self.spec_bitmap_count(),
    {
        self.bitmap.cluster_count()
    }

    /// Marks `clusters` as allocated, each owned by `owner`, from the `i`-th on.
    fn mark_owned_clusters(&mut self, layout: &DiskLayout, clusters: &Vec<u32>, owner: SectorOwner) -> (r: Result<(), IoError>)
        requires
            old(self).wf(),
            layout.wf(),
        ensures
            final(self).spec_counts() == old(self).spec_counts(),
            final(self).wf(),
            final(self).spec_fat() == old(self).spec_fat(),
            final(self).spec_fat_count() == old(self).spec_fat_count(),
            final(self).spec_store() == old(self).spec_store(),
            final(self).spec_total() == old(self).spec_total(),
            final(self).spec_bitmap_count() == old(self).spec_bitmap_count(),
            r is Ok <==> all_in_range(clusters@, old(self).spec_bitmap_count()) && ranges_fit(
                owned_ranges(*layout, clusters@, owner),
                old(self).spec_total(),
            ),
            r is Ok ==> final(self).spec_bitmap() == old(self).spec_bitmap().union(set_of(clusters@, clusters@.len() as int))
                && final(self).spec_ranges() == old(self).spec_ranges() + owned_ranges(*layout, clusters@, owner),
            r is Err ==> r->Err_0.kind == ErrorKind::InvalidInput,
    {
        let mut i: usize = 0;
        while i < clusters.len()
            invariant
                i <= clusters@.len(),
                self.wf(),
                layout.wf(),
                self.spec_fat() == old(self).spec_fat(),
                self.spec_fat_count() == old(self).spec_fat_count(),
                self.spec_store() == old(self).spec_store(),
                self.spec_total() == old(self).spec_total(),
                self.spec_bitmap_count() == old(self).spec_bitmap_count(),
                all_in_range(clusters@.take(i as int), old(self).spec_bitmap_count()),
                ranges_fit(owned_ranges(*layout, clusters@.take(i as int), owner), old(self).spec_total()),
                self.spec_bitmap() == old(self).spec_bitmap().union(set_of(clusters@, i as int)),
                self.spec_ranges() == old(self).spec_ranges() + owned_ranges(*layout, clusters@.take(i as int), owner),
            decreases clusters@.len() - i,
        {
            let c = clusters[i];
            let ghost prev_ranges = self.spec_ranges();
            match self.bitmap.mark_allocated(c) {
                Ok(()) => {},
                Err(e) => {
                    assert(!cluster_in_range(clusters@[i as int], old(self).spec_bitmap_count()));
                    return Err(e);
                },
            }
            let start = layout.cluster_to_sector(c);
            match self.sector_owners.mark_range(start, 8, owner) {
                Ok(()) => {},
                Err(e) => {
                    assert(!ranges_fit(owned_ranges(*layout, clusters@, owner), old(self).spec_total())) by {
                        assert(owned_ranges(*layout, clusters@, owner)[i as int] == OwnerRange { start, len: 8, owner });
                    }
                    return Err(e);
                },
            }
            proof {
                assert(clusters@.take(i + 1) =~= clusters@.take(i as int).push(c));
                assert(owned_ranges(*layout, clusters@.take(i + 1), owner) =~= owned_ranges(*layout, clusters@.take(i as int), owner).push(
                    OwnerRange { start, len: 8, owner },
                ));
                assert(self.spec_bitmap() =~= old(self).spec_bitmap().union(set_of(clusters@, i + 1)));
                assert(self.spec_ranges() =~= old(self).spec_ranges() + owned_ranges(*layout, clusters@.take(i + 1), owner));
            }
            i = i + 1;
        }
        assert(clusters@.take(clusters@.len() as int) =~= clusters@);
        Ok(())
    }

    /// Records the cluster chain `clusters` of the directory `virtual_path`:
    /// directory record, FAT chain, allocation and sector owners.
    pub fn set_directory_chain(&mut self, layout: &DiskLayout, node_id: NodeId, virtual_path: String, clusters: Vec<u32>) -> (r:
        Result<(), IoError>)
        requires
            old(self).wf(),
            layout.wf(),
        ensures
            final(self).spec_counts() == old(self).spec_counts(),
            final(self).wf(),
            final(self).spec_store() == (match first_with_path(old(self).spec_store(), virtual_path@) {
                Some(i) => old(self).spec_store().update(i, (DirectoryRecord { node_id, virtual_path, clusters })),
                None => old(self).spec_store().push((DirectoryRecord { node_id, virtual_path, clusters })),
            }),
            !all_in_range(clusters@, old(self).spec_fat_count()) ==> (r matches Err(e) && e.kind == ErrorKind::InvalidInput)
                && final(self).spec_fat() == old(self).spec_fat() && final(self).spec_bitmap() == old(self).spec_bitmap()
                && final(self).spec_ranges() == old(self).spec_ranges(),
            all_in_range(clusters@, old(self).spec_fat_count()) ==> (r is Ok <==> all_in_range(clusters@, old(self).spec_bitmap_count())
                && ranges_fit(owned_ranges(*layout, clusters@, dir_owner(virtual_path@, node_id)), old(self).spec_total())),
            r is Ok ==> final(self).spec_fat() == link_prefix(old(self).spec_fat(), clusters@, clusters@.len() as int)
                && final(self).spec_bitmap() == old(self).spec_bitmap().union(set_of(clusters@, clusters@.len() as int))
                && final(self).spec_ranges() == old(self).spec_ranges() + owned_ranges(*layout, clusters@, dir_owner(virtual_path@, node_id)),
            r is Err ==> r->Err_0.kind == ErrorKind::InvalidInput,
    {
        let root = "/";
        proof {
            reveal_strlit("/");
        }
        assert(root@ =~= seq!['/']);
        let owner = if str_eq(virtual_path.as_str(), root) {
            SectorOwner::RootDirectory
        } else {
            SectorOwner::DirectoryData { node_id: node_id.0 }
        };
        let copy = vstd::slice::slice_to_vec(clusters.as_slice());
        let path_copy = virtual_path.clone();
        self.directory_store.insert_directory(virtual_path, node_id, clusters);
        self.fat.set_chain(copy.as_slice())?;
        let ghost mid = self.spec_fat();
        assert(path_copy@ == virtual_path@);
        self.mark_owned_clusters(layout, &copy, owner)
    }

    /// Records the cluster chain of a file of `size` bytes: FAT chain, allocation
    /// and the owner of every sector (file data up to `size`, zero fill after).
    pub fn set_file_chain(&mut self, layout: &DiskLayout, node_id: NodeId, chain: &ClusterChain, size: u64) -> (r: Result<
        (),
        IoError,
    >)
        requires
            old(self).wf(),
            layout.wf(),
            chain.clusters@.len() * 4096 <= u64::MAX,
        ensures
            final(self).spec_counts() == old(self).spec_counts(),
            final(self).wf(),
            final(self).spec_store() == old(self).spec_store(),
            final(self).spec_lookup() == old(self).spec_lookup(),
            !all_in_range(chain.clusters@, old(self).spec_fat_count()) ==> (r matches Err(e) && e.kind == ErrorKind::InvalidInput)
                && final(self).spec_fat() == old(self).spec_fat() && final(self).spec_bitmap() == old(self).spec_bitmap()
                && final(self).spec_ranges() == old(self).spec_ranges(),
            all_in_range(chain.clusters@, old(self).spec_fat_count()) ==> (r is Ok <==> all_in_range(chain.clusters@, old(self).spec_bitmap_count())
                && ranges_fit(file_ranges(*layout, node_id, chain.clusters@, size), old(self).spec_total())),
            r is Ok ==> final(self).spec_fat() == link_prefix(old(self).spec_fat(), chain.clusters@, chain.clusters@.len() as int)
                && final(self).spec_bitmap() == old(self).spec_bitmap().union(set_of(chain.clusters@, chain.clusters@.len() as int))
                && final(self).spec_ranges() == old(self).spec_ranges() + file_ranges(*layout, node_id, chain.clusters@, size),
            r is Err ==> r->Err_0.kind == ErrorKind::InvalidInput,
    {
        self.fat.set_chain(chain.clusters.as_slice())?;
        let ghost fat1 = self.spec_fat();
        let cs = &chain.clusters;
        let ghost want = file_ranges(*layout, node_id, cs@, size);
        let mut remaining = size;
        let mut offset: u64 = 0;
        let mut i: usize = 0;
        while i < cs.len()
            invariant
                i <= cs@.len(),
                cs@.len() * 4096 <= u64::MAX,
                want == file_ranges(*layout, node_id, cs@, size),
                self.wf(),
                layout.wf(),
                self.spec_fat() == fat1,
                self.spec_store() == old(self).spec_store(),
                self.spec_total() == old(self).spec_total(),
                self.spec_lookup() == old(self).spec_lookup(),
                self.spec_bitmap_count() == old(self).spec_bitmap_count(),
                self.spec_fat_count() == old(self).spec_fat_count(),
                offset == 4096 * i,
                cs@ == chain.clusters@,
                all_in_range(cs@, old(self).spec_fat_count()),
                remaining == (if size >= offset { size - offset } else { 0 }),
                all_in_range(cs@.take(i as int), old(self).spec_bitmap_count()),
                ranges_fit(want.take(8 * i), old(self).spec_total()),
                self.spec_bitmap() == old(self).spec_bitmap().union(set_of(cs@, i as int)),
                self.spec_ranges() == old(self).spec_ranges() + want.take(8 * i),
            decreases cs@.len() - i,
        {
            let c = cs[i];
            match self.bitmap.mark_allocated(c) {
                Ok(()) => {},
                Err(e) => {
                    assert(!cluster_in_range(cs@[i as int], old(self).spec_bitmap_count()));
                    assert(!all_in_range(cs@, old(self).spec_bitmap_count()));
                    return Err(e);
                },
            }
            let base = layout.cluster_to_sector(c);
            let mut k: u64 = 0;
            while k < 8
                invariant
                    i < cs@.len(),
                    cs@.len() * 4096 <= u64::MAX,
                    c == cs@[i as int],
                    base == layout.spec_cluster_to_sector(c as int),
                    want == file_ranges(*layout, node_id, cs@, size),
                    k <= 8,
                    self.wf(),
                    layout.wf(),
                    self.spec_fat() == fat1,
                    self.spec_store() == old(self).spec_store(),
                    self.spec_total() == old(self).spec_total(),
                    self.spec_lookup() == old(self).spec_lookup(),
                self.spec_lookup() == old(self).spec_lookup(),
                    self.spec_bitmap_count() == old(self).spec_bitmap_count(),
                    self.spec_fat_count() == old(self).spec_fat_count(),
                    self.spec_bitmap() == old(self).spec_bitmap().union(set_of(cs@, i + 1)),
                    offset == 512 * (8 * i + k),
                    cs@ == chain.clusters@,
                    all_in_range(cs@, old(self).spec_fat_count()),
                    all_in_range(cs@.take(i as int), old(self).spec_bitmap_count()),
                    cluster_in_range(c, old(self).spec_bitmap_count()),
                    remaining == (if size >= offset { size - offset } else { 0 }),
                    ranges_fit(want.take(8 * i + k), old(self).spec_total()),
                    self.spec_ranges() == old(self).spec_ranges() + want.take(8 * i + k),
                decreases 8 - k,
            {
                let sector = base + k;
                let owner = if remaining == 0 {
                    SectorOwner::AllocatedZero { node_id: node_id.0, file_offset: offset }
                } else {
                    let valid_bytes: u32 = if remaining >= 512 { 512 } else { remaining as u32 };
                    SectorOwner::FileData { node_id: node_id.0, file_offset: offset, valid_bytes }
                };
                proof {
                    let j = 8 * i + k;
                    assert(j / 8 == i && j % 8 == k) by (nonlinear_arith)
                        requires j == 8 * i + k, 0 <= k < 8;
                    assert(want[j as int] == OwnerRange { start: sector, len: 1, owner });
                }
                match self.sector_owners.mark_range(sector, 1, owner) {
                    Ok(()) => {},
                    Err(e) => {
                        assert(!ranges_fit(want, old(self).spec_total())) by {
                            assert(want[8 * i + k] == OwnerRange { start: sector, len: 1, owner });
                        }
                        return Err(e);
                    },
                }
                proof {
                    assert(want.take(8 * i + k + 1) =~= want.take(8 * i + k).push(OwnerRange { start: sector, len: 1, owner }));
                    assert(self.spec_ranges() =~= old(self).spec_ranges() + want.take(8 * i + k + 1));
                }
                remaining = if remaining >= 512 { remaining - 512 } else { 0 };
                offset = offset + 512;
                k = k + 1;
            }
            proof {
                assert(cs@.take(i + 1) =~= cs@.take(i as int).push(c));
            }
            i = i + 1;
        }
        assert(cs@.take(cs@.len() as int) =~= cs@);
        assert(want.take(8 * cs@.len() as int) =~= want);
        Ok(())
    }

    /// Renames the directory records of `from` and its subtree to `to`.
    pub fn rename_subtree(&mut self, from: &str, to: &str)
        requires
            old(self).wf(),
        ensures
            final(self).spec_counts() == old(self).spec_counts(),
            final(self).wf(),
            final(self).spec_fat() == old(self).spec_fat(),
            final(self).spec_bitmap() == old(self).spec_bitmap(),
            final(self).spec_ranges() == old(self).spec_ranges(),
            final(self).spec_store().len() == old(self).spec_store().len(),
            forall|i: int|
                0 <= i < old(self).spec_store().len() ==> {
                    &&& (#[trigger] final(self).spec_store()[i]).node_id == old(self).spec_store()[i].node_id
                    &&& final(self).spec_store()[i].clusters == old(self).spec_store()[i].clusters
                    &&& final(self).spec_store()[i].virtual_path@ == (if crate::strings::is_same_path_or_child_spec(
                        old(self).spec_store()[i].virtual_path@,
                        from@,
                    ) {
                        crate::strings::remap_path_prefix_spec(old(self).spec_store()[i].virtual_path@, from@, to@)
                    } else {
                        old(self).spec_store()[i].virtual_path@
                    })
                },
    {
        self.directory_store.rename_subtree(from, to);
    }

    /// Frees the clusters in `removed` from the `i`-th on.
    fn free_clusters(&mut self, layout: &DiskLayout, removed: &Vec<u32>) -> (r: Result<(), IoError>)
        requires
            old(self).wf(),
            layout.wf(),
        ensures
            final(self).spec_counts() == old(self).spec_counts(),
            final(self).wf(),
            final(self).spec_store() == old(self).spec_store(),
            r is Ok <==> all_in_range(removed@, old(self).spec_bitmap_count()) && all_in_range(removed@, old(self).spec_fat_count())
                && ranges_fit(free_ranges(*layout, removed@), old(self).spec_total()),
            r is Ok ==> final(self).spec_bitmap() == old(self).spec_bitmap().difference(set_of(removed@, removed@.len() as int))
                && final(self).spec_fat() == without_keys(old(self).spec_fat(), removed@, removed@.len() as int)
                && final(self).spec_ranges() == old(self).spec_ranges() + free_ranges(*layout, removed@),
            r is Err ==> r->Err_0.kind == ErrorKind::InvalidInput,
    {
        let mut i: usize = 0;
        while i < removed.len()
            invariant
                i <= removed@.len(),
                self.wf(),
                layout.wf(),
                self.spec_store() == old(self).spec_store(),
                self.spec_total() == old(self).spec_total(),
                self.spec_bitmap_count() == old(self).spec_bitmap_count(),
                self.spec_fat_count() == old(self).spec_fat_count(),
                all_in_range(removed@.take(i as int), old(self).spec_bitmap_count()),
                all_in_range(removed@.take(i as int), old(self).spec_fat_count()),
                ranges_fit(free_ranges(*layout, removed@.take(i as int)), old(self).spec_total()),
                self.spec_bitmap() == old(self).spec_bitmap().difference(set_of(removed@, i as int)),
                self.spec_fat() == without_keys(old(self).spec_fat(), removed@, i as int),
                self.spec_ranges() == old(self).spec_ranges() + free_ranges(*layout, removed@.take(i as int)),
            decreases removed@.len() - i,
        {
            let c = removed[i];
            match self.bitmap.mark_free(c) {
                Ok(()) => {},
                Err(e) => {
                    assert(!cluster_in_range(removed@[i as int], old(self).spec_bitmap_count()));
                    return Err(e);
                },
            }
            match self.fat.mark_free(c) {
                Ok(()) => {},
                Err(e) => {
                    assert(!cluster_in_range(removed@[i as int], old(self).spec_fat_count()));
                    return Err(e);
                },
            }
            let start = layout.cluster_to_sector(c);
            let owner = SectorOwner::FreeCluster { cluster: c };
            match self.sector_owners.mark_range(start, 8, owner) {
                Ok(()) => {},
                Err(e) => {
                    assert(!ranges_fit(free_ranges(*layout, removed@), old(self).spec_total())) by {
                        assert(free_ranges(*layout, removed@)[i as int] == OwnerRange { start, len: 8, owner });
                    }
                    return Err(e);
                },
            }
            proof {
                assert(removed@.take(i + 1) =~= removed@.take(i as int).push(c));
                assert(free_ranges(*layout, removed@.take(i + 1)) =~= free_ranges(*layout, removed@.take(i as int)).push(
                    OwnerRange { start, len: 8, owner },
                ));
                assert(self.spec_bitmap() =~= old(self).spec_bitmap().difference(set_of(removed@, i + 1)));
                assert(self.spec_ranges() =~= old(self).spec_ranges() + free_ranges(*layout, removed@.take(i + 1)));
            }
            i = i + 1;
        }
        assert(removed@.take(removed@.len() as int) =~= removed@);
        Ok(())
    }

    /// Removes the directory records of `virtual_path` and its subtree and frees
    /// their clusters, which it returns.
    pub fn remove_subtree(&mut self, layout: &DiskLayout, virtual_path: &str) -> (r: Result<Vec<u32>, IoError>)
        requires
            old(self).wf(),
            layout.wf(),
        ensures
            final(self).spec_counts() == old(self).spec_counts(),
            final(self).wf(),
            final(self).spec_store() == crate::exfat::directory_store::records_outside(old(self).spec_store(), virtual_path@),
            ({
                let rm = crate::exfat::directory_store::clusters_under(old(self).spec_store(), virtual_path@);
                &&& r is Ok <==> all_in_range(rm, old(self).spec_bitmap_count()) && all_in_range(rm, old(self).spec_fat_count())
                    && ranges_fit(free_ranges(*layout, rm), old(self).spec_total())
                &&& r matches Ok(v) ==> v@ == rm && final(self).spec_bitmap() == old(self).spec_bitmap().difference(set_of(rm, rm.len() as int))
                    && final(self).spec_fat() == without_keys(old(self).spec_fat(), rm, rm.len() as int)
                    && final(self).spec_ranges() == old(self).spec_ranges() + free_ranges(*layout, rm)
                &&& r is Err ==> r->Err_0.kind == ErrorKind::InvalidInput
            }),
    {
        let removed = self.directory_store.remove_subtree(virtual_path);
        self.free_clusters(layout, &removed)?;
        Ok(removed)
    }

    /// Marks `len` sectors from `start` as owned by `owner`.
    pub fn mark_range(&mut self, start: u64, len: u64, owner: SectorOwner) -> (r: Result<(), IoError>)
        requires
            old(self).wf(),
        ensures
            match mark_range_view(old(self).mview(), start, len, owner) {
                Some(v) => r is Ok && final(self).mview() == v,
                None => r matches Err(e) && e.kind == ErrorKind::InvalidInput,
            },
            final(self).spec_counts() == old(self).spec_counts(),
            final(self).wf(),
            final(self).spec_fat() == old(self).spec_fat(),
            final(self).spec_bitmap() == old(self).spec_bitmap(),
            final(self).spec_store() == old(self).spec_store(),
            len == 0 ==> r is Ok && final(self).spec_ranges() == old(self).spec_ranges(),
            len > 0 && start + len <= old(self).spec_total() ==> r is Ok && final(self).spec_ranges()
                == old(self).spec_ranges().push(OwnerRange { start, len, owner }),
            len > 0 && start + len > old(self).spec_total() ==> (r matches Err(e) && e.kind == ErrorKind::InvalidInput)
                && final(self).spec_ranges() == old(self).spec_ranges(),
    {
        self.sector_owners.mark_range(start, len, owner)
    }

    /// Frees `cluster`: bitmap, FAT link and sector owner.
    pub fn mark_cluster_free(&mut self, layout: &DiskLayout, cluster: u32) -> (r: Result<(), IoError>)
        requires
            old(self).wf(),
            layout.wf(),
        ensures
            match free_one(old(self).mview(), *layout, cluster) {
                Some(v) => r is Ok && final(self).mview() == v,
                None => r matches Err(e) && e.kind == ErrorKind::InvalidInput,
            },
            final(self).spec_counts() == old(self).spec_counts(),
            final(self).wf(),
            final(self).spec_store() == old(self).spec_store(),
            r is Ok <==> cluster_in_range(cluster, old(self).spec_bitmap_count()) && cluster_in_range(cluster, old(self).spec_fat_count())
                && ranges_fit(free_ranges(*layout, seq![cluster]), old(self).spec_total()),
            r is Ok ==> final(self).spec_bitmap() == old(self).spec_bitmap().remove(cluster)
                && final(self).spec_fat() == old(self).spec_fat().remove(cluster)
                && final(self).spec_ranges() == old(self).spec_ranges() + free_ranges(*layout, seq![cluster]),
            r is Err ==> r->Err_0.kind == ErrorKind::InvalidInput,
    {
        let v = vec![cluster];
        let r = self.free_clusters(layout, &v);
        proof {
            assert(v@ =~= seq![cluster]);
            assert(v@[0] == cluster);
            assert(set_of(v@, 0) =~= Set::<u32>::empty());
            assert(without_keys(old(self).spec_fat(), v@, 0) == old(self).spec_fat());
            assert(without_keys(old(self).spec_fat(), v@, 1) == old(self).spec_fat().remove(cluster));
            assert(set_of(v@, 1) =~= set![cluster]);
            assert(old(self).spec_bitmap().difference(set![cluster]) =~= old(self).spec_bitmap().remove(cluster));
            assert(all_in_range(v@, old(self).spec_bitmap_count()) == cluster_in_range(cluster, old(self).spec_bitmap_count())) by {
                assert(v@[0] == cluster);
            }
            assert(all_in_range(v@, old(self).spec_fat_count()) == cluster_in_range(cluster, old(self).spec_fat_count())) by {
                assert(v@[0] == cluster);
            }
        }
        r
    }

    /// Records the cluster chain of a file; the same as `set_file_chain`.
    pub fn mark_file_chain(&mut self, layout: &DiskLayout, id: NodeId, chain: &ClusterChain, size: u64) -> (r: Result<(), IoError>)
        requires
            old(self).wf(),
            layout.wf(),
            chain.clusters@.len() * 4096 <= u64::MAX,
        ensures
            final(self).spec_counts() == old(self).spec_counts(),
            final(self).wf(),
            final(self).spec_store() == old(self).spec_store(),
            r is Ok <==> all_in_range(chain.clusters@, old(self).spec_fat_count()) && all_in_range(chain.clusters@, old(self).spec_bitmap_count())
                && ranges_fit(file_ranges(*layout, id, chain.clusters@, size), old(self).spec_total()),
            r is Ok ==> final(self).spec_fat() == link_prefix(old(self).spec_fat(), chain.clusters@, chain.clusters@.len() as int)
                && final(self).spec_bitmap() == old(self).spec_bitmap().union(set_of(chain.clusters@, chain.clusters@.len() as int))
                && final(self).spec_ranges() == old(self).spec_ranges() + file_ranges(*layout, id, chain.clusters@, size),
            r is Err ==> r->Err_0.kind == ErrorKind::InvalidInput,
    {
        self.set_file_chain(layout, id, chain, size)
    }
}

/// Whether `owner` is the owner the clusters of directory `rec` must have.
pub open spec fn dir_owner_ok(rec: DirectoryRecord, owner: SectorOwner) -> bool {
    if rec.virtual_path@ == seq!['/'] {
        owner is RootDirectory
    } else {
        owner matches SectorOwner::DirectoryData { node_id } && node_id == rec.node_id.0
    }
}

impl ExfatMetadataState {
    /// Every directory record names a node of `nodes` and its clusters are
    /// allocated and owned by that directory; no allocated cluster is marked free.
    pub open spec fn spec_valid(&self, nodes: Seq<crate::vfs::node::NodeView>, layout: DiskLayout) -> bool {
        &&& forall|i: int| 0 <= i < self.spec_store().len() ==> find_id(nodes, (#[trigger] self.spec_store()[i]).node_id) is Some
        &&& forall|i: int, j: int|
            0 <= i < self.spec_store().len() && 0 <= j < self.spec_store()[i].clusters@.len() ==> {
                let c = #[trigger] self.spec_store()[i].clusters@[j];
                &&& self.spec_bitmap().contains(c)
                &&& dir_owner_ok(self.spec_store()[i], self.spec_owner(layout.spec_cluster_to_sector(c as int) as u64))
            }
        &&& forall|c: u32| #[trigger] self.spec_bitmap().contains(c) ==> !(self.spec_owner(
            layout.spec_cluster_to_sector(c as int) as u64,
        ) is FreeCluster)
    }

    /// Checks the metadata against the VFS index; `InvalidData` when a record
    /// points to a missing node, a directory cluster is not allocated or not owned
    /// by its directory, or an allocated cluster is marked free.
    pub fn validate(&self, index: &VfsIndex, layout: &DiskLayout) -> (r: Result<(), IoError>)
        requires
            self.wf(),
            layout.wf(),
        ensures
            r is Ok <==> self.spec_valid(index.spec_nodes(), *layout),
            r is Err ==> r->Err_0.kind == ErrorKind::InvalidData,
    {
        let recs = self.directory_store.records();
        let mut i: usize = 0;
        while i < recs.len()
            invariant
                i <= recs@.len(),
                recs@ == self.spec_store(),
                self.wf(),
                layout.wf(),
                forall|a: int| 0 <= a < i ==> find_id(index.spec_nodes(), (#[trigger] self.spec_store()[a]).node_id) is Some,
                forall|a: int, j: int|
                    0 <= a < i && 0 <= j < self.spec_store()[a].clusters@.len() ==> {
                        let c = #[trigger] self.spec_store()[a].clusters@[j];
                        &&& self.spec_bitmap().contains(c)
                        &&& dir_owner_ok(self.spec_store()[a], self.spec_owner(layout.spec_cluster_to_sector(c as int) as u64))
                    },
            decreases recs@.len() - i,
        {
            let rec = &recs[i];
            if index.node(rec.node_id).is_none() {
                let mut m = String::from_str("directory ");
                m.append(rec.virtual_path.as_str());
                m.append(" points to missing VFS node");
                return Err(IoError { kind: ErrorKind::InvalidData, message: m, rejection: None });
            }
            let root = "/";
            proof {
                reveal_strlit("/");
            }
            assert(root@ =~= seq!['/']);
            let is_root = str_eq(rec.virtual_path.as_str(), root);
            let mut j: usize = 0;
            while j < rec.clusters.len()
                invariant
                    i < recs@.len(),
                    rec == recs@[i as int],
                    recs@ == self.spec_store(),
                    is_root == (rec.virtual_path@ == seq!['/']),
                    j <= rec.clusters@.len(),
                    self.wf(),
                    layout.wf(),
                    forall|b: int|
                        0 <= b < j ==> {
                            let c = #[trigger] rec.clusters@[b];
                            &&& self.spec_bitmap().contains(c)
                            &&& dir_owner_ok(*rec, self.spec_owner(layout.spec_cluster_to_sector(c as int) as u64))
                        },
                decreases rec.clusters@.len() - j,
            {
                let c = rec.clusters[j];
                if !self.bitmap.is_allocated(c) {
                    let mut m = String::from_str("directory ");
                    m.append(rec.virtual_path.as_str());
                    m.append(" cluster ");
                    m.append(crate::strings::decimal_string(c as u64).as_str());
                    m.append(" is not allocated");
                    return Err(IoError { kind: ErrorKind::InvalidData, message: m, rejection: None });
                }
                proof {
                    self.bitmap.lemma_allocated_in_range(c);
                }
                let owner = self.owner_of(layout.cluster_to_sector(c));
                let valid = if is_root {
                    match owner {
                        SectorOwner::RootDirectory => true,
                        _ => false,
                    }
                } else {
                    match owner {
                        SectorOwner::DirectoryData { node_id } => node_id == rec.node_id.0,
                        _ => false,
                    }
                };
                if !valid {
                    let mut m = String::from_str("directory ");
                    m.append(rec.virtual_path.as_str());
                    m.append(" cluster ");
                    m.append(crate::strings::decimal_string(c as u64).as_str());
                    m.append(" has invalid owner");
                    return Err(IoError { kind: ErrorKind::InvalidData, message: m, rejection: None });
                }
                j = j + 1;
            }
            i = i + 1;
        }
        let allocated = self.bitmap.allocated_clusters();
        let mut k: usize = 0;
        while k < allocated.len()
            invariant
                k <= allocated@.len(),
                allocated@.to_set() == self.spec_bitmap(),
                self.wf(),
                layout.wf(),
                forall|b: int| 0 <= b < k ==> !(self.spec_owner(
                    layout.spec_cluster_to_sector((#[trigger] allocated@[b]) as int) as u64,
                ) is FreeCluster),
            decreases allocated@.len() - k,
        {
            let c = allocated[k];
            proof {
                assert(allocated@.to_set().contains(c));
                self.bitmap.lemma_allocated_in_range(c);
            }
            let owner = self.owner_of(layout.cluster_to_sector(c));
            match owner {
                SectorOwner::FreeCluster { .. } => {
                    let mut m = String::from_str("allocated cluster ");
                    m.append(crate::strings::decimal_string(c as u64).as_str());
                    m.append(" still marked free");
                    return Err(IoError { kind: ErrorKind::InvalidData, message: m, rejection: None });
                },
                _ => {},
            }
            k = k + 1;
        }
        proof {
            assert forall|c: u32| #[trigger] self.spec_bitmap().contains(c) implies !(self.spec_owner(
                layout.spec_cluster_to_sector(c as int) as u64,
            ) is FreeCluster) by {
                assert(allocated@.to_set().contains(c));
                let b = choose|b: int| 0 <= b < allocated@.len() && allocated@[b] == c;
            }
        }
        Ok(())
    }
}

} // verus!
