//! The virtual exFAT volume: metadata sectors generated in memory, file data
//! sectors mapped to real files.
use vstd::prelude::*;
use std::collections::HashMap;
use crate::bytes::{copy_into, le64, splice, u64_le, zero_bytes, zeros};
use crate::error::{io_error, ErrorKind, IoError};
use crate::exfat::bitmap::{generate_bitmap, spec_bitmap};
use crate::exfat::boot::{generate_boot_region, generate_mbr, spec_boot_region, spec_mbr, spec_serial_from_clock};
use crate::exfat::dir_entry::{build_bitmap_entry, build_file_entry_set, build_upcase_entry, build_volume_label_entry,
    spec_bitmap_entry, spec_file_entry_set, spec_upcase_entry, spec_volume_label_entry};
use crate::exfat::fat::{chain_entries, spec_fat_bytes, FatBuilder};
use crate::exfat::upcase::{generate_upcase_table, spec_upcase_table, upcase_checksum};
use crate::layout::{DiskLayout, FAT_END_OF_CHAIN, FAT_MEDIA_TYPE};
use crate::policy::{evaluate_access, spec_denial};
use crate::strings::{join_virtual_path, join_virtual_path_spec};
use crate::text::encode_utf16;
use crate::types::{AccessDecision, ControlledEntry, PolicySnapshot, SectorContent};

verus! {

broadcast use {vstd::std_specs::vec::group_vec_axioms, vstd::std_specs::hash::group_hash_axioms};

/// A metadata allocation: clusters `start..start+count` holding `data`.
#[derive(Debug)]
pub struct ClusterAllocation {
    pub start: u32,
    pub count: u32,
    pub data: Vec<u8>,
}

/// A file whose data lives in the real file system.
#[derive(Debug)]
pub struct FileMapping {
    pub name: String,
    pub real_path: String,
    pub start_cluster: u32,
    pub file_size: u64,
    pub blocked: bool,
}

/// Mathematical form of an allocation.
pub struct AllocView {
    pub start: u32,
    pub count: u32,
    pub data: Seq<u8>,
}

/// Mathematical form of a file mapping.
pub struct MappingView {
    pub name: Seq<char>,
    pub real_path: Seq<char>,
    pub start_cluster: u32,
    pub file_size: u64,
    pub blocked: bool,
}

/// Mathematical form of the builder: next free cluster, metadata allocations,
/// root directory entries, file mappings and directory clusters.
pub struct BuilderView {
    pub next: int,
    pub allocs: Seq<AllocView>,
    pub root: Seq<u8>,
    pub maps: Seq<MappingView>,
    pub dirs: Seq<(Seq<char>, Seq<u32>)>,
}

/// Clusters needed by a file of `size` bytes, capped at 32 bits.
pub open spec fn file_clusters_spec(size: u64) -> int {
    let c = (size + 4095) / 4096;
    if c > u32::MAX {
        u32::MAX as int
    } else {
        c
    }
}

/// The directory entry set for `name`.
pub open spec fn entry_set(name: Seq<char>, is_dir: bool, start: u32, len: u64, virus: bool) -> Seq<u8> {
    spec_file_entry_set(encode_utf16(name), is_dir, start, len, virus)
}

/// `n` consecutive clusters from `start`.
pub open spec fn contig(start: int, n: int) -> Seq<u32> {
    Seq::new(n as nat, |k: int| (start + k) as u32)
}

/// Whether policy denies access to `e`.
pub open spec fn is_blocked(e: ControlledEntry, snap: PolicySnapshot) -> bool {
    spec_denial(e, snap) is Some
}

/// A file entry: its first cluster and cluster count (none for a virus or an
/// empty file).
pub open spec fn file_alloc(next: int, e: ControlledEntry) -> (int, int) {
    if e.is_virus || e.file_size == 0 {
        (0, 0)
    } else {
        (next, file_clusters_spec(e.file_size))
    }
}

/// The builder after allocating the file `e` (listed in the directory whose
/// entries are returned).
pub open spec fn alloc_file(b: BuilderView, e: ControlledEntry, snap: PolicySnapshot) -> (BuilderView, Seq<u8>) {
    let (fc, n) = file_alloc(b.next, e);
    (
        BuilderView {
            next: b.next + n,
            maps: if n > 0 {
                b.maps.push(
                    MappingView {
                        name: e.virtual_name@,
                        real_path: e.real_path@,
                        start_cluster: fc as u32,
                        file_size: e.file_size,
                        blocked: is_blocked(e, snap),
                    },
                )
            } else {
                b.maps
            },
            ..b
        },
        entry_set(e.virtual_name@, false, fc as u32, e.file_size, e.is_virus),
    )
}

/// The builder after allocating the children `cs` of the directory at `path`,
/// and the directory's entries.
pub open spec fn alloc_children(b: BuilderView, path: Seq<char>, cs: Seq<ControlledEntry>, snap: PolicySnapshot) -> (
    BuilderView,
    Seq<u8>,
)
    decreases cs.len(),
{
    if cs.len() == 0 {
        (b, seq![])
    } else {
        let (b1, d1) = alloc_children(b, path, cs.drop_last(), snap);
        let c = cs.last();
        if c.is_dir {
            let cc = b1.next;
            (
                BuilderView {
                    next: b1.next + 1,
                    allocs: b1.allocs.push(AllocView { start: cc as u32, count: 1, data: zeros(4096) }),
                    dirs: b1.dirs.push((join_virtual_path_spec(path, c.virtual_name@), seq![cc as u32])),
                    ..b1
                },
                d1 + entry_set(c.virtual_name@, true, cc as u32, 0, false),
            )
        } else {
            let (b2, e) = alloc_file(b1, c, snap);
            (b2, d1 + e)
        }
    }
}

/// Clusters holding `len` bytes of directory entries (at least one).
pub open spec fn dir_clusters_needed(len: int) -> int {
    if len == 0 {
        1
    } else {
        (len + 4095) / 4096
    }
}

/// The builder after allocating the top-level entry `e`.
pub open spec fn alloc_entry(b: BuilderView, e: ControlledEntry, snap: PolicySnapshot) -> BuilderView {
    let path = join_virtual_path_spec(seq!['/'], e.virtual_name@);
    if e.is_dir {
        let (b1, d) = alloc_children(b, path, e.children@, snap);
        let needed = dir_clusters_needed(d.len() as int);
        let dc = b1.next;
        BuilderView {
            next: b1.next + needed,
            root: b1.root + entry_set(e.virtual_name@, true, dc as u32, 0, false),
            allocs: b1.allocs.push(AllocView { start: dc as u32, count: needed as u32, data: d + zeros((needed * 4096 - d.len()) as nat) }),
            dirs: b1.dirs.push((path, contig(dc, needed))),
            ..b1
        }
    } else {
        let (b1, d) = alloc_file(b, e, snap);
        BuilderView { root: b1.root + d, ..b1 }
    }
}

/// The builder after allocating the top-level entries `es` in order.
pub open spec fn alloc_entries(b: BuilderView, es: Seq<ControlledEntry>, snap: PolicySnapshot) -> BuilderView
    decreases es.len(),
{
    if es.len() == 0 {
        b
    } else {
        alloc_entry(alloc_entries(b, es.drop_last(), snap), es.last(), snap)
    }
}

/// The builder after the fixed metadata: root directory (cluster 2), bitmap
/// (cluster 3), up-case table, and their root directory entries.
pub open spec fn metadata_builder() -> BuilderView {
    let up = spec_upcase_table();
    let up_clusters: int = (up.len() + 4095) as int / 4096;
    BuilderView {
        next: 4 + up_clusters,
        allocs: seq![AllocView { start: 4, count: up_clusters as u32, data: up }],
        root: spec_volume_label_entry(encode_utf16("USB_CTRL"@)) + spec_bitmap_entry(3, 0) + spec_upcase_entry(
            4,
            up.len() as u64,
            upcase_checksum(up),
        ),
        maps: seq![],
        dirs: seq![],
    }
}

/// Allocation grows monotonically.
pub proof fn lemma_alloc_children_grows(b: BuilderView, path: Seq<char>, cs: Seq<ControlledEntry>, snap: PolicySnapshot)
    ensures
        alloc_children(b, path, cs, snap).0.next >= b.next,
    decreases cs.len(),
{
    if cs.len() > 0 {
        lemma_alloc_children_grows(b, path, cs.drop_last(), snap);
    }
}

/// Allocation grows monotonically.
pub proof fn lemma_alloc_entries_grows(b: BuilderView, es: Seq<ControlledEntry>, snap: PolicySnapshot)
    ensures
        alloc_entries(b, es, snap).next >= b.next,
    decreases es.len(),
{
    if es.len() > 0 {
        lemma_alloc_entries_grows(b, es.drop_last(), snap);
        let b0 = alloc_entries(b, es.drop_last(), snap);
        let e = es.last();
        if e.is_dir {
            lemma_alloc_children_grows(b0, join_virtual_path_spec(seq!['/'], e.virtual_name@), e.children@, snap);
        }
    }
}

/// Allocating a prefix never ends past allocating all entries.
pub proof fn lemma_alloc_entries_prefix(b: BuilderView, es: Seq<ControlledEntry>, i: int, snap: PolicySnapshot)
    requires
        0 <= i <= es.len(),
    ensures
        alloc_entries(b, es.take(i), snap).next <= alloc_entries(b, es, snap).next,
    decreases es.len() - i,
{
    if i < es.len() {
        lemma_alloc_entries_prefix(b, es, i + 1, snap);
        assert(es.take(i + 1).drop_last() =~= es.take(i));
        let b0 = alloc_entries(b, es.take(i), snap);
        let e = es[i];
        assert(es.take(i + 1).last() == e);
        if e.is_dir {
            lemma_alloc_children_grows(b0, join_virtual_path_spec(seq!['/'], e.virtual_name@), e.children@, snap);
        }
    } else {
        assert(es.take(i) =~= es);
    }
}

/// Allocating a prefix of children never ends past allocating all of them.
pub proof fn lemma_alloc_children_prefix(b: BuilderView, path: Seq<char>, cs: Seq<ControlledEntry>, i: int, snap: PolicySnapshot)
    requires
        0 <= i <= cs.len(),
    ensures
        alloc_children(b, path, cs.take(i), snap).0.next <= alloc_children(b, path, cs, snap).0.next,
    decreases cs.len() - i,
{
    if i < cs.len() {
        lemma_alloc_children_prefix(b, path, cs, i + 1, snap);
        assert(cs.take(i + 1).drop_last() =~= cs.take(i));
    } else {
        assert(cs.take(i) =~= cs);
    }
}

/// Every allocation and file mapping lies in `2..next`.
pub open spec fn builder_ok(b: BuilderView) -> bool {
    &&& 4 <= b.next
    &&& forall|i: int| 0 <= i < b.allocs.len() ==> 2 <= (#[trigger] b.allocs[i]).start && b.allocs[i].start
        + b.allocs[i].count <= b.next
    &&& forall|i: int| 0 <= i < b.maps.len() ==> 2 <= (#[trigger] b.maps[i]).start_cluster && b.maps[i].start_cluster
        + file_clusters_spec(b.maps[i].file_size) <= b.next
}

pub proof fn lemma_alloc_file_ok(b: BuilderView, e: ControlledEntry, snap: PolicySnapshot)
    requires
        builder_ok(b),
        alloc_file(b, e, snap).0.next <= u32::MAX,
    ensures
        builder_ok(alloc_file(b, e, snap).0),
{
    let b2 = alloc_file(b, e, snap).0;
    assert forall|i: int| 0 <= i < b2.maps.len() implies 2 <= (#[trigger] b2.maps[i]).start_cluster
        && b2.maps[i].start_cluster + file_clusters_spec(b2.maps[i].file_size) <= b2.next by {
        if i < b.maps.len() {
            assert(b2.maps[i] == b.maps[i]);
        }
    }
}

pub proof fn lemma_alloc_children_ok(b: BuilderView, path: Seq<char>, cs: Seq<ControlledEntry>, snap: PolicySnapshot)
    requires
        builder_ok(b),
        alloc_children(b, path, cs, snap).0.next <= u32::MAX,
    ensures
        builder_ok(alloc_children(b, path, cs, snap).0),
    decreases cs.len(),
{
    if cs.len() > 0 {
        lemma_alloc_children_prefix(b, path, cs, cs.len() - 1, snap);
        assert(cs.take(cs.len() - 1) =~= cs.drop_last());
        lemma_alloc_children_ok(b, path, cs.drop_last(), snap);
        let b1 = alloc_children(b, path, cs.drop_last(), snap).0;
        let c = cs.last();
        if c.is_dir {
            let b2 = alloc_children(b, path, cs, snap).0;
            assert forall|i: int| 0 <= i < b2.allocs.len() implies 2 <= (#[trigger] b2.allocs[i]).start
                && b2.allocs[i].start + b2.allocs[i].count <= b2.next by {
                if i < b1.allocs.len() {
                    assert(b2.allocs[i] == b1.allocs[i]);
                }
            }
        } else {
            lemma_alloc_file_ok(b1, c, snap);
        }
    }
}

pub proof fn lemma_alloc_entries_ok(b: BuilderView, es: Seq<ControlledEntry>, snap: PolicySnapshot)
    requires
        builder_ok(b),
        alloc_entries(b, es, snap).next <= u32::MAX,
    ensures
        builder_ok(alloc_entries(b, es, snap)),
    decreases es.len(),
{
    if es.len() > 0 {
        lemma_alloc_entries_prefix(b, es, es.len() - 1, snap);
        assert(es.take(es.len() - 1) =~= es.drop_last());
        lemma_alloc_entries_ok(b, es.drop_last(), snap);
        let b0 = alloc_entries(b, es.drop_last(), snap);
        let e = es.last();
        let path = join_virtual_path_spec(seq!['/'], e.virtual_name@);
        if e.is_dir {
            lemma_alloc_children_grows(b0, path, e.children@, snap);
            lemma_alloc_children_ok(b0, path, e.children@, snap);
            let b1 = alloc_children(b0, path, e.children@, snap).0;
            let b2 = alloc_entry(b0, e, snap);
            assert forall|i: int| 0 <= i < b2.allocs.len() implies 2 <= (#[trigger] b2.allocs[i]).start
                && b2.allocs[i].start + b2.allocs[i].count <= b2.next by {
                if i < b1.allocs.len() {
                    assert(b2.allocs[i] == b1.allocs[i]);
                }
            }
        } else {
            lemma_alloc_file_ok(b0, e, snap);
        }
    }
}

/// Sector `i` (512 bytes) of `data`, zero-padded past its end.
pub open spec fn sector_of(data: Seq<u8>, i: int) -> Seq<u8> {
    Seq::new(512, |k: int| if 0 <= 512 * i + k < data.len() { data[512 * i + k] } else { 0 })
}

/// The `n` sectors from `first` holding the successive sectors of `data`.
pub open spec fn run_map(first: int, n: int, data: Seq<u8>) -> Map<u64, Seq<u8>> {
    Map::new(|s: u64| first <= s < first + n, |s: u64| sector_of(data, s - first))
}

/// `f` with the clusters `start..start+count` chained.
pub open spec fn apply_chain(f: Seq<u32>, start: u32, count: int) -> Seq<u32> {
    if count == 1 {
        f.update(start as int, FAT_END_OF_CHAIN)
    } else {
        chain_entries(f, start as int, count)
    }
}

/// `f` with the chains of the allocations `a`.
pub open spec fn chain_allocs(f: Seq<u32>, a: Seq<AllocView>) -> Seq<u32>
    decreases a.len(),
{
    if a.len() == 0 {
        f
    } else {
        apply_chain(chain_allocs(f, a.drop_last()), a.last().start, a.last().count as int)
    }
}

/// `f` with the chains of the file mappings `m`.
pub open spec fn chain_maps(f: Seq<u32>, m: Seq<MappingView>) -> Seq<u32>
    decreases m.len(),
{
    if m.len() == 0 {
        f
    } else {
        apply_chain(chain_maps(f, m.drop_last()), m.last().start_cluster, file_clusters_spec(m.last().file_size))
    }
}

/// Final sizes of a generated volume: root directory clusters, the first extra
/// root cluster, the number of allocated clusters.
pub struct GenPlan {
    pub root_needed: int,
    pub extra_start: int,
    pub allocated: int,
}

/// The plan `generate` follows for the builder `b`.
pub open spec fn gen_plan(b: BuilderView) -> GenPlan {
    let root_len = if b.root.len() > 4096 { b.root.len() as int } else { 4096 };
    let root_needed = (root_len + 4095) / 4096;
    GenPlan { root_needed, extra_start: b.next, allocated: b.next + (root_needed - 1) - 2 }
}

/// The layout of the volume generated from `b`.
pub open spec fn gen_layout(b: BuilderView, min_total: u64) -> DiskLayout {
    DiskLayout::spec_new(DiskLayout::spec_min_cluster_count(gen_plan(b).allocated as u32, min_total))
}

/// The FAT entries of the volume generated from `b`.
pub open spec fn gen_fat(b: BuilderView, layout: DiskLayout) -> Seq<u32> {
    let p = gen_plan(b);
    let f0 = Seq::new(
        (layout.cluster_count + 2) as nat,
        |k: int| if k == 0 { FAT_MEDIA_TYPE } else if k == 1 { FAT_END_OF_CHAIN } else { 0 },
    );
    let f1 = if p.root_needed == 1 {
        f0.update(2, FAT_END_OF_CHAIN)
    } else {
        chain_entries(f0.update(2, p.extra_start as u32), p.extra_start, p.root_needed - 1)
    };
    chain_maps(chain_allocs(f1.update(3, FAT_END_OF_CHAIN), b.allocs), b.maps)
}

/// The bitmap of the volume generated from `b`.
pub open spec fn gen_bitmap(b: BuilderView, layout: DiskLayout) -> Seq<u8> {
    spec_bitmap(layout.cluster_count as int, gen_plan(b).allocated)
}

/// The root directory image: entries (with the bitmap length filled in),
/// zero-padded to whole clusters.
pub open spec fn gen_root(b: BuilderView, layout: DiskLayout) -> Seq<u8> {
    let r = if b.root.len() >= 64 {
        splice(b.root, 56, le64(gen_bitmap(b, layout).len() as u64))
    } else {
        b.root
    };
    r + zeros((gen_plan(b).root_needed * 4096 - r.len()) as nat)
}

/// `m` with the sectors of the metadata allocations `a`.
pub open spec fn alloc_sectors(m: Map<u64, Seq<u8>>, layout: DiskLayout, a: Seq<AllocView>) -> Map<u64, Seq<u8>>
    decreases a.len(),
{
    if a.len() == 0 {
        m
    } else {
        alloc_sectors(m, layout, a.drop_last()).union_prefer_right(
            run_map(layout.spec_cluster_to_sector(a.last().start as int), a.last().count * 8, a.last().data),
        )
    }
}

/// What a file data sector maps to: real file, byte offset, valid bytes, blocked.
pub struct FileSectorView {
    pub real_path: Seq<char>,
    pub offset: u64,
    pub valid_bytes: u32,
    pub blocked: bool,
}

/// The data sectors of the file mapping `m` starting at sector `first`.
pub open spec fn file_run(first: int, m: MappingView) -> Map<u64, FileSectorView> {
    Map::new(
        |s: u64| first <= s < first + (m.file_size + 511) / 512,
        |s: u64|
            FileSectorView {
                real_path: m.real_path,
                offset: (512 * (s - first)) as u64,
                valid_bytes: (if m.file_size - 512 * (s - first) >= 512 {
                    512
                } else {
                    m.file_size - 512 * (s - first)
                }) as u32,
                blocked: m.blocked,
            },
    )
}

/// The file data sectors of the mappings `ms`.
pub open spec fn gen_files(layout: DiskLayout, ms: Seq<MappingView>) -> Map<u64, FileSectorView>
    decreases ms.len(),
{
    if ms.len() == 0 {
        Map::empty()
    } else {
        gen_files(layout, ms.drop_last()).union_prefer_right(
            file_run(layout.spec_cluster_to_sector(ms.last().start_cluster as int), ms.last()),
        )
    }
}

/// The volume builder.
pub struct VolumeBuilder {
    min_total_bytes: u64,
    next_cluster: u32,
    cluster_allocations: Vec<ClusterAllocation>,
    root_dir_entries: Vec<u8>,
    file_mappings: Vec<FileMapping>,
    directories: Vec<(String, Vec<u32>)>,
}

/// Clusters needed by a file of `size` bytes, capped at 32 bits.
pub fn file_clusters(size: u64) -> (r: u32)
    ensures
        r == file_clusters_spec(size),
{
    let c: u64 = size / 4096 + if size % 4096 == 0 { 0 } else { 1 };
    assert(c == (size + 4095) / 4096);
    if c > 0xFFFF_FFFF {
        0xFFFF_FFFF
    } else {
        c as u32
    }
}

impl VolumeBuilder {
    /// The builder's state.
    pub closed spec fn view(&self) -> BuilderView {
        BuilderView {
            next: self.next_cluster as int,
            allocs: self.cluster_allocations@.map_values(|a: ClusterAllocation| AllocView { start: a.start, count: a.count, data: a.data@ }),
            root: self.root_dir_entries@,
            maps: self.file_mappings@.map_values(
                |m: FileMapping|
                    MappingView {
                        name: m.name@,
                        real_path: m.real_path@,
                        start_cluster: m.start_cluster,
                        file_size: m.file_size,
                        blocked: m.blocked,
                    },
            ),
            dirs: self.directories@.map_values(|d: (String, Vec<u32>)| (d.0@, d.1@)),
        }
    }

    /// The minimum disk size requested.
    pub closed spec fn spec_min_total_bytes(&self) -> u64 {
        self.min_total_bytes
    }

    /// A builder for a disk of at least `source_size_bytes` bytes, with the fixed
    /// metadata allocated.
    pub fn new(source_size_bytes: u64) -> (b: Self)
        ensures
            b@ == metadata_builder(),
            b.spec_min_total_bytes() == source_size_bytes,
    {
        let (upcase_data, upcase_checksum) = generate_upcase_table();
        let up_len = upcase_data.len();
        let upcase_clusters: u32 = ((up_len + 4095) / 4096) as u32;
        let mut root = build_volume_label_entry("USB_CTRL");
        let mut bm = build_bitmap_entry(3, 0);
        let mut up = build_upcase_entry(4, up_len as u64, upcase_checksum);
        root.append(&mut bm);
        root.append(&mut up);
        let mut allocs: Vec<ClusterAllocation> = Vec::new();
        allocs.push(ClusterAllocation { start: 4, count: upcase_clusters, data: upcase_data });
        let b = VolumeBuilder {
            min_total_bytes: source_size_bytes,
            next_cluster: 4 + upcase_clusters,
            cluster_allocations: allocs,
            root_dir_entries: root,
            file_mappings: Vec::new(),
            directories: Vec::new(),
        };
        assert(b@.allocs =~= metadata_builder().allocs);
        assert(b@.maps =~= metadata_builder().maps);
        assert(b@.dirs =~= metadata_builder().dirs);
        b
    }

    /// Takes `count` clusters; `None` (changing nothing) when the cluster numbers
    /// would leave 32 bits.
    fn allocate_clusters(&mut self, count: u64) -> (r: Option<u32>)
        ensures
            old(self).next_cluster + count <= u32::MAX ==> r == Some(old(self).next_cluster) && final(self)@ == (
            BuilderView { next: old(self)@.next + count, ..old(self)@ }) && final(self).min_total_bytes == old(self).min_total_bytes,
            old(self).next_cluster + count > u32::MAX ==> r is None,
            final(self).min_total_bytes == old(self).min_total_bytes,
    {
        if count > 0xFFFF_FFFF || self.next_cluster as u64 + count > 0xFFFF_FFFF {
            return None;
        }
        let start = self.next_cluster;
        self.next_cluster = (self.next_cluster as u64 + count) as u32;
        Some(start)
    }

    /// Appends `bytes` to the root directory entries.
    fn append_root(&mut self, bytes: &mut Vec<u8>)
        ensures
            final(self)@ == (BuilderView { root: old(self)@.root + old(bytes)@, ..old(self)@ }),
            final(self).min_total_bytes == old(self).min_total_bytes,
    {
        self.root_dir_entries.append(bytes);
        assert(self@.allocs =~= old(self)@.allocs);
        assert(self@.maps =~= old(self)@.maps);
        assert(self@.dirs =~= old(self)@.dirs);
    }

    /// Records a metadata allocation.
    fn push_alloc(&mut self, a: ClusterAllocation)
        ensures
            final(self)@ == (BuilderView {
                allocs: old(self)@.allocs.push(AllocView { start: a.start, count: a.count, data: a.data@ }),
                ..old(self)@
            }),
            final(self).min_total_bytes == old(self).min_total_bytes,
    {
        let ghost av = AllocView { start: a.start, count: a.count, data: a.data@ };
        self.cluster_allocations.push(a);
        assert(self@.allocs =~= old(self)@.allocs.push(av));
        assert(self@.maps =~= old(self)@.maps);
        assert(self@.dirs =~= old(self)@.dirs);
    }

    /// Records the clusters of a directory.
    fn push_dir(&mut self, path: String, clusters: Vec<u32>)
        ensures
            final(self)@ == (BuilderView { dirs: old(self)@.dirs.push((path@, clusters@)), ..old(self)@ }),
            final(self).min_total_bytes == old(self).min_total_bytes,
    {
        let ghost dv = (path@, clusters@);
        self.directories.push((path, clusters));
        assert(self@.allocs =~= old(self)@.allocs);
        assert(self@.maps =~= old(self)@.maps);
        assert(self@.dirs =~= old(self)@.dirs.push(dv));
    }

    /// Allocates the children `cs` of the directory at `path`; returns the
    /// directory's entries.
    fn allocate_children(&mut self, path: &str, cs: &Vec<ControlledEntry>, snapshot: &PolicySnapshot) -> (r: Option<Vec<u8>>)
        ensures
            final(self).min_total_bytes == old(self).min_total_bytes,
            alloc_children(old(self)@, path@, cs@, *snapshot).0.next <= u32::MAX ==> (r matches Some(d) && d@
                == alloc_children(old(self)@, path@, cs@, *snapshot).1 && final(self)@ == alloc_children(
                old(self)@,
                path@,
                cs@,
                *snapshot,
            ).0),
            alloc_children(old(self)@, path@, cs@, *snapshot).0.next > u32::MAX ==> r is None,
    {
        let mut d: Vec<u8> = Vec::new();
        let mut i: usize = 0;
        let ghost b0 = self@;
        assert(cs@.take(0) =~= Seq::<ControlledEntry>::empty());
        while i < cs.len()
            invariant
                i <= cs@.len(),
                b0 == old(self)@,
                self.min_total_bytes == old(self).min_total_bytes,
                self@ == alloc_children(b0, path@, cs@.take(i as int), *snapshot).0,
                d@ == alloc_children(b0, path@, cs@.take(i as int), *snapshot).1,
            decreases cs@.len() - i,
        {
            let c = &cs[i];
            assert(cs@.take(i + 1).drop_last() =~= cs@.take(i as int));
            assert(cs@.take(i + 1).last() == *c);
            proof {
                lemma_alloc_children_prefix(b0, path@, cs@, i + 1, *snapshot);
            }
            if c.is_dir {
                let cc = match self.allocate_clusters(1) {
                    Some(x) => x,
                    None => {
                        return None;
                    },
                };
                let ghost before = self@;
                self.cluster_allocations.push(ClusterAllocation { start: cc, count: 1, data: zero_bytes(4096) });
                let child_path = join_virtual_path(path, c.virtual_name.as_str());
                let mut one: Vec<u32> = Vec::new();
                one.push(cc);
                self.directories.push((child_path, one));
                let mut e = build_file_entry_set(c.virtual_name.as_str(), true, cc, 0, false);
                d.append(&mut e);
                assert(self@.allocs =~= before.allocs.push(AllocView { start: cc, count: 1, data: zeros(4096) }));
                assert(self@.dirs =~= before.dirs.push((join_virtual_path_spec(path@, c.virtual_name@), seq![cc])));
                assert(self@ =~= alloc_children(b0, path@, cs@.take(i + 1), *snapshot).0);
            } else {
                let mut e = match self.allocate_file(c, snapshot) {
                    Some(x) => x,
                    None => {
                        return None;
                    },
                };
                d.append(&mut e);
            }
            i = i + 1;
        }
        assert(cs@.take(cs@.len() as int) =~= cs@);
        Some(d)
    }

    /// Allocates the top-level entry `e`.
    #[verifier::rlimit(40)]
    fn allocate_entry(&mut self, e: &ControlledEntry, snapshot: &PolicySnapshot) -> (r: bool)
        ensures
            final(self).min_total_bytes == old(self).min_total_bytes,
            alloc_entry(old(self)@, *e, *snapshot).next <= u32::MAX ==> r && final(self)@ == alloc_entry(old(self)@, *e, *snapshot),
            alloc_entry(old(self)@, *e, *snapshot).next > u32::MAX ==> !r,
    {
        let root = "/";
        proof {
            reveal_strlit("/");
        }
        assert(root@ =~= seq!['/']);
        let path = join_virtual_path(root, e.virtual_name.as_str());
        if e.is_dir {
            let mut d = match self.allocate_children(path.as_str(), &e.children, snapshot) {
                Some(x) => x,
                None => {
                    return false;
                },
            };
            let dl = d.len() as u64;
            let needed: u64 = if dl == 0 { 1 } else { dl / 4096 + if dl % 4096 == 0 { 0 } else { 1 } };
            assert(needed == dir_clusters_needed(d@.len() as int));
            let dc = match self.allocate_clusters(needed) {
                Some(x) => x,
                None => {
                    return false;
                },
            };
            let ghost dv = d@;
            let mut entry = build_file_entry_set(e.virtual_name.as_str(), true, dc, 0, false);
            self.append_root(&mut entry);
            assert(dv.len() <= needed * 4096) by (nonlinear_arith)
                requires
                    needed == (if dv.len() == 0 { 1 } else { (dv.len() + 4095) / 4096 }),
            ;
            pad_zeros(&mut d, needed * 4096);
            self.push_alloc(ClusterAllocation { start: dc, count: needed as u32, data: d });
            let clusters = contiguous_clusters(dc, needed);
            self.push_dir(path, clusters);
            proof {
                let want = alloc_entry(old(self)@, *e, *snapshot);
                assert(self@.next == want.next);
                assert(self@.root =~= want.root);
                assert(self@.allocs =~= want.allocs);
                assert(self@.maps =~= want.maps);
                assert(self@.dirs =~= want.dirs);
            }
            true
        } else {
            let mut d = match self.allocate_file(e, snapshot) {
                Some(x) => x,
                None => {
                    return false;
                },
            };
            self.append_root(&mut d);
            true
        }
    }

    /// Allocates the top-level entries `entries` in order; `false` when the
    /// cluster numbers would leave 32 bits.
    pub fn allocate_files(&mut self, entries: &[ControlledEntry], snapshot: &PolicySnapshot) -> (r: bool)
        ensures
            final(self).spec_min_total_bytes() == old(self).spec_min_total_bytes(),
            alloc_entries(old(self)@, entries@, *snapshot).next <= u32::MAX ==> r && final(self)@ == alloc_entries(
                old(self)@,
                entries@,
                *snapshot,
            ),
            alloc_entries(old(self)@, entries@, *snapshot).next > u32::MAX ==> !r,
    {
        let ghost b0 = self@;
        let mut i: usize = 0;
        assert(entries@.take(0) =~= Seq::<ControlledEntry>::empty());
        while i < entries.len()
            invariant
                i <= entries@.len(),
                b0 == old(self)@,
                self.min_total_bytes == old(self).min_total_bytes,
                self@ == alloc_entries(b0, entries@.take(i as int), *snapshot),
            decreases entries@.len() - i,
        {
            assert(entries@.take(i + 1).drop_last() =~= entries@.take(i as int));
            assert(entries@.take(i + 1).last() == entries@[i as int]);
            proof {
                lemma_alloc_entries_prefix(b0, entries@, i + 1, *snapshot);
            }
            if !self.allocate_entry(&entries[i], snapshot) {
                return false;
            }
            i = i + 1;
        }
        assert(entries@.take(entries@.len() as int) =~= entries@);
        true
    }

    /// Allocates the file `e`; returns its entry set.
    fn allocate_file(&mut self, e: &ControlledEntry, snapshot: &PolicySnapshot) -> (r: Option<Vec<u8>>)
        ensures
            final(self).min_total_bytes == old(self).min_total_bytes,
            alloc_file(old(self)@, *e, *snapshot).0.next <= u32::MAX ==> (r matches Some(d) && d@ == alloc_file(
                old(self)@,
                *e,
                *snapshot,
            ).1 && final(self)@ == alloc_file(old(self)@, *e, *snapshot).0),
            alloc_file(old(self)@, *e, *snapshot).0.next > u32::MAX ==> r is None,
    {
        let blocked = match evaluate_access(e, snapshot) {
            AccessDecision::Deny(_) => true,
            AccessDecision::Allow => false,
        };
        let (fc, n) = if e.is_virus || e.file_size == 0 {
            (0u32, 0u32)
        } else {
            let n = file_clusters(e.file_size);
            match self.allocate_clusters(n as u64) {
                Some(start) => (start, n),
                None => {
                    return None;
                },
            }
        };
        let d = build_file_entry_set(e.virtual_name.as_str(), false, fc, e.file_size, e.is_virus);
        if n > 0 {
            let ghost before = self@;
            self.file_mappings.push(FileMapping {
                name: e.virtual_name.clone(),
                real_path: e.real_path.clone(),
                start_cluster: fc,
                file_size: e.file_size,
                blocked,
            });
            assert(self@.maps =~= before.maps.push(MappingView {
                name: e.virtual_name@,
                real_path: e.real_path@,
                start_cluster: fc,
                file_size: e.file_size,
                blocked: is_blocked(*e, *snapshot),
            }));
            assert(self@ =~= alloc_file(old(self)@, *e, *snapshot).0);
        } else {
            assert(self@ =~= alloc_file(old(self)@, *e, *snapshot).0);
        }
        Some(d)
    }
}

/// Pads `d` with zeros up to `total` bytes.
fn pad_zeros(d: &mut Vec<u8>, total: u64)
    requires
        old(d)@.len() <= total,
    ensures
        final(d)@ == old(d)@ + zeros((total - old(d)@.len()) as nat),
{
    let ghost dv = d@;
    while (d.len() as u64) < total
        invariant
            dv.len() <= d@.len() <= total,
            d@ == dv + zeros((d@.len() - dv.len()) as nat),
        decreases total - d@.len(),
    {
        d.push(0u8);
        assert(d@ =~= dv + zeros((d@.len() - dv.len()) as nat));
    }
}

/// The `n` consecutive clusters from `start`.
fn contiguous_clusters(start: u32, n: u64) -> (v: Vec<u32>)
    requires
        start + n <= u32::MAX + 1,
    ensures
        v@ == contig(start as int, n as int),
{
    let mut clusters: Vec<u32> = Vec::new();
    let mut k: u64 = 0;
    while k < n
        invariant
            k <= n,
            start + n <= u32::MAX + 1,
            clusters@ == contig(start as int, k as int),
        decreases n - k,
    {
        clusters.push((start as u64 + k) as u32);
        k = k + 1;
        assert(clusters@ =~= contig(start as int, k as int));
    }
    clusters
}

/// The data of a file data sector.
#[derive(Debug)]
pub struct FileDataMapping {
    pub real_path: String,
    pub offset: u64,
    pub valid_bytes: u32,
    pub blocked: bool,
}

/// Where the data of a file lies on the virtual disk.
#[derive(Debug)]
pub struct FileDataRangeInfo {
    pub real_path: String,
    pub start_sector: u64,
    pub sector_count: u64,
    pub offset: u64,
    pub byte_len: u64,
}

/// The virtual exFAT volume.
pub struct VirtualVolume {
    metadata_sectors: HashMap<u64, Vec<u8>>,
    metadata_order: Vec<u64>,
    file_data_sectors: HashMap<u64, FileDataMapping>,
    layout: DiskLayout,
    file_sector_map: Vec<(String, Vec<u64>)>,
    directories: Vec<(String, Vec<u32>)>,
    file_ranges: Vec<FileDataRangeInfo>,
}

/// Mathematical form of a file data range.
pub struct RangeView {
    pub real_path: Seq<char>,
    pub start_sector: u64,
    pub sector_count: u64,
    pub offset: u64,
    pub byte_len: u64,
}

/// The views of a list of file data ranges.
pub open spec fn ranges_view(v: Seq<FileDataRangeInfo>) -> Seq<RangeView> {
    v.map_values(
        |r: FileDataRangeInfo|
            RangeView {
                real_path: r.real_path@,
                start_sector: r.start_sector,
                sector_count: r.sector_count,
                offset: r.offset,
                byte_len: r.byte_len,
            },
    )
}

/// The data range of the file mapping `m`.
pub open spec fn range_of(layout: DiskLayout, m: MappingView) -> RangeView {
    RangeView {
        real_path: m.real_path,
        start_sector: layout.spec_cluster_to_sector(m.start_cluster as int) as u64,
        sector_count: ((m.file_size + 511) / 512) as u64,
        offset: 0,
        byte_len: m.file_size,
    }
}

/// The contents of a metadata map.
pub open spec fn meta_view(m: Map<u64, Vec<u8>>) -> Map<u64, Seq<u8>> {
    m.map_values(|v: Vec<u8>| v@)
}

/// The contents of a file data map.
pub open spec fn files_view(m: Map<u64, FileDataMapping>) -> Map<u64, FileSectorView> {
    m.map_values(
        |v: FileDataMapping|
            FileSectorView { real_path: v.real_path@, offset: v.offset, valid_bytes: v.valid_bytes, blocked: v.blocked },
    )
}

/// `order` lists exactly the sectors of `m`.
pub open spec fn order_ok(order: Seq<u64>, m: Map<u64, Vec<u8>>) -> bool {
    forall|s: u64| order.contains(s) <==> m.contains_key(s)
}

/// Sector `i` of `data`, zero-padded.
fn sector_bytes(data: &[u8], i: u64) -> (r: Vec<u8>)
    ensures
        r@ == sector_of(data@, i as int),
{
    let mut out: Vec<u8> = Vec::new();
    let mut k: u64 = 0;
    let dl = data.len() as u64;
    while k < 512
        invariant
            k <= 512,
            dl == data@.len(),
            out@.len() == k,
            forall|j: int| 0 <= j < k ==> #[trigger] out@[j] == sector_of(data@, i as int)[j],
        decreases 512 - k,
    {
        let b = if i <= (dl / 512) && 512 * i + k < dl {
            data[(512 * i + k) as usize]
        } else {
            0u8
        };
        out.push(b);
        k = k + 1;
    }
    assert(out@ =~= sector_of(data@, i as int));
    out
}

/// Inserts `n` sectors from `first` holding the successive sectors of `data`.
fn insert_run(m: &mut HashMap<u64, Vec<u8>>, order: &mut Vec<u64>, first: u64, n: u64, data: &[u8])
    requires
        first + n <= u64::MAX,
        order_ok(old(order)@, old(m)@),
    ensures
        order_ok(final(order)@, final(m)@),
        meta_view(final(m)@) == meta_view(old(m)@).union_prefer_right(run_map(first as int, n as int, data@)),
        forall|s: u64| final(order)@.contains(s) <==> (old(order)@.contains(s) || (first <= s < first + n)),
{
    let mut i: u64 = 0;
    let ghost m0 = meta_view(m@);
    assert(m0.union_prefer_right(run_map(first as int, 0, data@)) =~= m0);
    while i < n
        invariant
            i <= n,
            first + n <= u64::MAX,
            meta_view(m@) == m0.union_prefer_right(run_map(first as int, i as int, data@)),
            m0 == meta_view(old(m)@),
            order_ok(old(order)@, old(m)@),
            forall|s: u64| m@.contains_key(s) <==> (old(m)@.contains_key(s) || (first <= s < first + i)),
            forall|s: u64| order@.contains(s) <==> (old(order)@.contains(s) || (first <= s < first + i)),
        decreases n - i,
    {
        let bytes = sector_bytes(data, i);
        let ghost before = meta_view(m@);
        let ghost bv = bytes@;
        m.insert(first + i, bytes);
        assert(meta_view(m@) =~= before.insert((first + i) as u64, bv));
        assert(meta_view(m@).dom() =~= m@.dom());
        let ghost prev = order@;
        order.push(first + i);
        assert(meta_view(m@) =~= m0.union_prefer_right(run_map(first as int, i + 1, data@)));
        assert forall|s: u64| order@.contains(s) <==> (prev.contains(s) || s == first + i) by {
            if prev.contains(s) {
                let k = choose|k: int| 0 <= k < prev.len() && prev[k] == s;
                assert(order@[k] == s);
            }
            if s == first + i {
                assert(order@[order@.len() - 1] == s);
            }
            if order@.contains(s) {
                let k = choose|k: int| 0 <= k < order@.len() && order@[k] == s;
                if k < prev.len() {
                    assert(prev[k] == s);
                }
            }
        }
        i = i + 1;
    }
}

/// Inserts the data sectors of the file mapping `fm` starting at `first`.
fn insert_file_run(m: &mut HashMap<u64, FileDataMapping>, first: u64, fm: &FileMapping) -> (sectors: Vec<u64>)
    requires
        first + (fm.file_size + 511) / 512 <= u64::MAX,
    ensures
        files_view(final(m)@) == files_view(old(m)@).union_prefer_right(
            file_run(
                first as int,
                MappingView {
                    name: fm.name@,
                    real_path: fm.real_path@,
                    start_cluster: fm.start_cluster,
                    file_size: fm.file_size,
                    blocked: fm.blocked,
                },
            ),
        ),
        sectors@ == Seq::new(((fm.file_size + 511) / 512) as nat, |k: int| (first + k) as u64),
{
    let ghost mv = MappingView {
        name: fm.name@,
        real_path: fm.real_path@,
        start_cluster: fm.start_cluster,
        file_size: fm.file_size,
        blocked: fm.blocked,
    };
    let total: u64 = fm.file_size / 512 + if fm.file_size % 512 == 0 { 0 } else { 1 };
    assert(total == (fm.file_size + 511) / 512);
    let ghost m0 = files_view(m@);
    let mut sectors: Vec<u64> = Vec::new();
    let mut i: u64 = 0;
    assert(m0.union_prefer_right(Map::new(|s: u64| first <= s < first + 0, |s: u64| file_run(first as int, mv)[s])) =~= m0);
    while i < total
        invariant
            i <= total,
            total == (fm.file_size + 511) / 512,
            first + total <= u64::MAX,
            mv == (MappingView {
                name: fm.name@,
                real_path: fm.real_path@,
                start_cluster: fm.start_cluster,
                file_size: fm.file_size,
                blocked: fm.blocked,
            }),
            m0 == files_view(old(m)@),
            files_view(m@) == m0.union_prefer_right(
                Map::new(|s: u64| first <= s < first + i, |s: u64| file_run(first as int, mv)[s]),
            ),
            sectors@ == Seq::new(i as nat, |k: int| (first + k) as u64),
        decreases total - i,
    {
        assert(512 * i < fm.file_size) by (nonlinear_arith)
            requires
                i < total,
                total == (fm.file_size + 511) / 512,
        ;
        let offset = i * 512;
        let remaining = fm.file_size - offset;
        let valid: u32 = if remaining >= 512 { 512 } else { remaining as u32 };
        let ghost before = files_view(m@);
        let fdm = FileDataMapping { real_path: fm.real_path.clone(), offset, valid_bytes: valid, blocked: fm.blocked };
        let ghost fv = FileSectorView { real_path: fdm.real_path@, offset: fdm.offset, valid_bytes: fdm.valid_bytes, blocked: fdm.blocked };
        m.insert(first + i, fdm);
        assert(files_view(m@) =~= before.insert((first + i) as u64, fv));
        proof {
            let fr = file_run(first as int, mv);
            let key = (first + i) as u64;
            assert(key == first + i);
            assert(mv.file_size == fm.file_size);
            assert(first as int <= key && key < first as int + (mv.file_size + 511) / 512);
            assert(fr.dom().contains(key));
            assert(fr[key].offset == offset);
            assert(fr[key].valid_bytes == valid);
            assert(fr[key].real_path == fv.real_path);
            assert(fr[key].blocked == fv.blocked);
            assert(fv == fr[key]);
        }
        sectors.push(first + i);
        assert(files_view(m@) =~= m0.union_prefer_right(
            Map::new(|s: u64| first <= s < first + i + 1, |s: u64| file_run(first as int, mv)[s]),
        ));
        assert(sectors@ =~= Seq::new((i + 1) as nat, |k: int| (first + k) as u64));
        i = i + 1;
    }
    assert(Map::new(|s: u64| first <= s < first + total, |s: u64| file_run(first as int, mv)[s]) =~= file_run(first as int, mv));
    sectors
}

/// The FAT of the volume generated from the builder `b`.
fn build_fat(b: &VolumeBuilder, layout: &DiskLayout, root_needed: u64) -> (f: FatBuilder)
    requires
        builder_ok(b@),
        layout.wf(),
        root_needed == gen_plan(b@).root_needed,
        b@.next + root_needed - 1 <= layout.cluster_count + 2,
        b@.next + root_needed - 1 <= u32::MAX,
        *layout == gen_layout(b@, b.spec_min_total_bytes()),
    ensures
        f.view() == gen_fat(b@, *layout),
{
    let count = layout.cluster_count;
    proof {
        layout.lemma_bounds();
    }
    assert(count + 2 <= usize::MAX) by {
        assert(count <= u32::MAX);
    }
    let mut f = FatBuilder::new(count);
    let extra_start = b.next_cluster;
    if root_needed == 1 {
        f.set_single(2);
    } else {
        f.set_chain_from_parts(2, extra_start, (root_needed - 1) as u32);
    }
    f.set_single(3);
    let ghost bv = b@;
    let ghost p = gen_plan(bv);
    let ghost f0 = Seq::new(
        (layout.cluster_count + 2) as nat,
        |k: int| if k == 0 { FAT_MEDIA_TYPE } else if k == 1 { FAT_END_OF_CHAIN } else { 0 },
    );
    let ghost f1 = if p.root_needed == 1 {
        f0.update(2, FAT_END_OF_CHAIN)
    } else {
        chain_entries(f0.update(2, p.extra_start as u32), p.extra_start, p.root_needed - 1)
    };
    let ghost base = f1.update(3, FAT_END_OF_CHAIN);
    assert(f.view() =~= base);
    let mut i: usize = 0;
    assert(bv.allocs.take(0) =~= Seq::<AllocView>::empty());
    while i < b.cluster_allocations.len()
        invariant
            i <= b.cluster_allocations@.len(),
            bv == b@,
            builder_ok(bv),
            bv.next <= layout.cluster_count + 2,
            bv.allocs.len() == b.cluster_allocations@.len(),
            f.view().len() == layout.cluster_count + 2,
            f.view() == chain_allocs(base, bv.allocs.take(i as int)),
        decreases b.cluster_allocations@.len() - i,
    {
        let a = &b.cluster_allocations[i];
        assert(bv.allocs[i as int] == AllocView { start: a.start, count: a.count, data: a.data@ });
        assert(bv.allocs.take(i + 1).drop_last() =~= bv.allocs.take(i as int));
        assert(bv.allocs.take(i + 1).last() == bv.allocs[i as int]);
        if a.count == 1 {
            f.set_single(a.start);
        } else {
            f.set_chain(a.start, a.count);
        }
        i = i + 1;
    }
    assert(bv.allocs.take(bv.allocs.len() as int) =~= bv.allocs);
    let ghost mid = chain_allocs(base, bv.allocs);
    let mut j: usize = 0;
    assert(bv.maps.take(0) =~= Seq::<MappingView>::empty());
    while j < b.file_mappings.len()
        invariant
            j <= b.file_mappings@.len(),
            bv == b@,
            builder_ok(bv),
            bv.next <= layout.cluster_count + 2,
            bv.maps.len() == b.file_mappings@.len(),
            f.view().len() == layout.cluster_count + 2,
            f.view() == chain_maps(mid, bv.maps.take(j as int)),
        decreases b.file_mappings@.len() - j,
    {
        let m = &b.file_mappings[j];
        assert(bv.maps[j as int].start_cluster == m.start_cluster && bv.maps[j as int].file_size == m.file_size);
        assert(bv.maps.take(j + 1).drop_last() =~= bv.maps.take(j as int));
        assert(bv.maps.take(j + 1).last() == bv.maps[j as int]);
        let n = file_clusters(m.file_size);
        if n == 1 {
            f.set_single(m.start_cluster);
        } else {
            f.set_chain(m.start_cluster, n);
        }
        j = j + 1;
    }
    assert(bv.maps.take(bv.maps.len() as int) =~= bv.maps);
    f
}

/// The metadata sectors before the metadata allocations: MBR, boot regions,
/// FAT, bitmap, root directory (and its extra clusters).
pub open spec fn fixed_metadata(b: BuilderView, layout: DiskLayout, serial: u32) -> Map<u64, Seq<u8>> {
    let p = gen_plan(b);
    let boot = spec_boot_region(layout, serial);
    let fat = spec_fat_bytes(gen_fat(b, layout), layout.fat_length_sectors * 512);
    let root = gen_root(b, layout);
    let m = Map::<u64, Seq<u8>>::empty().insert(0, spec_mbr(layout)).union_prefer_right(run_map(2048, 12, boot))
        .union_prefer_right(run_map(2060, 12, boot)).union_prefer_right(
        run_map(2048 + layout.fat_offset_sectors, layout.fat_length_sectors as int, fat),
    ).union_prefer_right(run_map(layout.spec_cluster_to_sector(3), 8, gen_bitmap(b, layout))).union_prefer_right(
        run_map(layout.spec_cluster_to_sector(2), 8, root),
    );
    if p.root_needed > 1 {
        m.union_prefer_right(run_map(layout.spec_cluster_to_sector(p.extra_start), (p.root_needed - 1) * 8, root.skip(4096)))
    } else {
        m
    }
}

/// Inserts the sectors of the metadata allocations.
fn insert_allocs(m: &mut HashMap<u64, Vec<u8>>, order: &mut Vec<u64>, layout: &DiskLayout, allocs: &Vec<ClusterAllocation>, av: Ghost<Seq<AllocView>>)
    requires
        layout.wf(),
        av@.len() == allocs@.len(),
        forall|k: int| 0 <= k < av@.len() ==> #[trigger] av@[k] == (AllocView {
            start: allocs@[k].start,
            count: allocs@[k].count,
            data: allocs@[k].data@,
        }),
        forall|k: int| 0 <= k < av@.len() ==> 2 <= (#[trigger] av@[k]).start,
        order_ok(old(order)@, old(m)@),
    ensures
        meta_view(final(m)@) == alloc_sectors(meta_view(old(m)@), *layout, av@),
        order_ok(final(order)@, final(m)@),
{
    let ghost m0 = meta_view(m@);
    let mut i: usize = 0;
    assert(av@.take(0) =~= Seq::<AllocView>::empty());
    while i < allocs.len()
        invariant
            i <= allocs@.len(),
            av@.len() == allocs@.len(),
            forall|k: int| 0 <= k < av@.len() ==> #[trigger] av@[k] == (AllocView {
                start: allocs@[k].start,
                count: allocs@[k].count,
                data: allocs@[k].data@,
            }),
            forall|k: int| 0 <= k < av@.len() ==> 2 <= (#[trigger] av@[k]).start,
            layout.wf(),
            order_ok(order@, m@),
            meta_view(m@) == alloc_sectors(m0, *layout, av@.take(i as int)),
        decreases allocs@.len() - i,
    {
        let a = &allocs[i];
        assert(av@[i as int] == AllocView { start: a.start, count: a.count, data: a.data@ });
        assert(av@.take(i + 1).drop_last() =~= av@.take(i as int));
        proof {
            layout.lemma_bounds();
        }
        insert_run(m, order, layout.cluster_to_sector(a.start), a.count as u64 * 8, a.data.as_slice());
        i = i + 1;
    }
    assert(av@.take(av@.len() as int) =~= av@);
}

/// The file data sectors of the mappings, the sectors of each file by name, and
/// the data range of each file.
fn map_files(layout: &DiskLayout, maps: &Vec<FileMapping>, mv: Ghost<Seq<MappingView>>) -> (r: (
    HashMap<u64, FileDataMapping>,
    Vec<(String, Vec<u64>)>,
    Vec<FileDataRangeInfo>,
))
    requires
        layout.wf(),
        mv@.len() == maps@.len(),
        forall|k: int| 0 <= k < mv@.len() ==> #[trigger] mv@[k] == (MappingView {
            name: maps@[k].name@,
            real_path: maps@[k].real_path@,
            start_cluster: maps@[k].start_cluster,
            file_size: maps@[k].file_size,
            blocked: maps@[k].blocked,
        }),
        forall|k: int| 0 <= k < mv@.len() ==> 2 <= (#[trigger] mv@[k]).start_cluster,
    ensures
        files_view(r.0@) == gen_files(*layout, mv@),
        r.1@.len() == maps@.len(),
        forall|k: int| 0 <= k < maps@.len() ==> (#[trigger] r.1@[k]).0@ == maps@[k].name@ && r.1@[k].1@ == Seq::new(
            ((maps@[k].file_size + 511) / 512) as nat,
            |q: int| (layout.spec_cluster_to_sector(maps@[k].start_cluster as int) + q) as u64,
        ),
        ranges_view(r.2@) == Seq::new(mv@.len(), |k: int| range_of(*layout, mv@[k])),
{
    let mut files: HashMap<u64, FileDataMapping> = HashMap::new();
    let mut sector_map: Vec<(String, Vec<u64>)> = Vec::new();
    let mut ranges: Vec<FileDataRangeInfo> = Vec::new();
    let mut j: usize = 0;
    assert(files_view(files@) =~= Map::<u64, FileSectorView>::empty());
    assert(mv@.take(0) =~= Seq::<MappingView>::empty());
    while j < maps.len()
        invariant
            j <= maps@.len(),
            mv@.len() == maps@.len(),
            forall|k: int| 0 <= k < mv@.len() ==> #[trigger] mv@[k] == (MappingView {
                name: maps@[k].name@,
                real_path: maps@[k].real_path@,
                start_cluster: maps@[k].start_cluster,
                file_size: maps@[k].file_size,
                blocked: maps@[k].blocked,
            }),
            forall|k: int| 0 <= k < mv@.len() ==> 2 <= (#[trigger] mv@[k]).start_cluster,
            layout.wf(),
            files_view(files@) == gen_files(*layout, mv@.take(j as int)),
            sector_map@.len() == j,
            forall|k: int| 0 <= k < j ==> (#[trigger] sector_map@[k]).0@ == maps@[k].name@ && sector_map@[k].1@ == Seq::new(
                ((maps@[k].file_size + 511) / 512) as nat,
                |q: int| (layout.spec_cluster_to_sector(maps@[k].start_cluster as int) + q) as u64,
            ),
            ranges_view(ranges@) == Seq::new(j as nat, |k: int| range_of(*layout, mv@[k])),
        decreases maps@.len() - j,
    {
        let fm = &maps[j];
        assert(mv@[j as int].start_cluster == fm.start_cluster);
        assert(mv@.take(j + 1).drop_last() =~= mv@.take(j as int));
        assert(mv@.take(j + 1).last() == mv@[j as int]);
        proof {
            layout.lemma_bounds();
        }
        let first = layout.cluster_to_sector(fm.start_cluster);
        let sectors = insert_file_run(&mut files, first, fm);
        let count: u64 = fm.file_size / 512 + if fm.file_size % 512 == 0 { 0 } else { 1 };
        assert(count == (fm.file_size + 511) / 512);
        let ghost rprev = ranges_view(ranges@);
        ranges.push(FileDataRangeInfo {
            real_path: fm.real_path.clone(),
            start_sector: first,
            sector_count: count,
            offset: 0,
            byte_len: fm.file_size,
        });
        sector_map.push((fm.name.clone(), sectors));
        assert(ranges_view(ranges@) =~= rprev.push(range_of(*layout, mv@[j as int])));
        assert(ranges_view(ranges@) =~= Seq::new((j + 1) as nat, |k: int| range_of(*layout, mv@[k])));
        j = j + 1;
    }
    assert(mv@.take(mv@.len() as int) =~= mv@);
    (files, sector_map, ranges)
}

impl VolumeBuilder {
    /// The fixed metadata sectors and the root directory's clusters.
    #[verifier::rlimit(60)]
    fn fixed_sectors(&self, layout: &DiskLayout, root_needed: u64, allocated: u32) -> (r: (HashMap<u64, Vec<u8>>, Vec<u64>, Vec<u32>))
        requires
            builder_ok(self@),
            layout.wf(),
            *layout == gen_layout(self@, self.spec_min_total_bytes()),
            root_needed == gen_plan(self@).root_needed,
            allocated == gen_plan(self@).allocated,
            self@.next + root_needed - 1 <= u32::MAX,
            layout.cluster_count >= allocated,
            layout.fat_length_sectors * 512 <= usize::MAX,
        ensures
            exists|serial: u32| meta_view(r.0@) == fixed_metadata(self@, *layout, serial),
            order_ok(r.1@, r.0@),
            r.2@ == seq![2u32] + contig(self@.next, root_needed - 1),
    {
        let ghost bv = self@;
        let extra: u64 = root_needed - 1;
        let extra_start = self.next_cluster;
        let mut metadata: HashMap<u64, Vec<u8>> = HashMap::new();
        let mut order: Vec<u64> = Vec::new();
        let mbr = generate_mbr(layout);
        metadata.insert(0, mbr);
        order.push(0);
        assert(meta_view(metadata@) =~= Map::<u64, Seq<u8>>::empty().insert(0, spec_mbr(*layout)));
        assert forall|s: u64| order@.contains(s) <==> metadata@.contains_key(s) by {
            if s == 0 {
                assert(order@[0] == 0);
            }
        }
        let boot = generate_boot_region(layout);
        let ghost secs = choose|secs: Option<u64>| boot@ == spec_boot_region(*layout, spec_serial_from_clock(secs));
        let ghost serial = spec_serial_from_clock(secs);
        proof {
            layout.lemma_bounds();
        }
        insert_run(&mut metadata, &mut order, 2048, 12, boot.as_slice());
        insert_run(&mut metadata, &mut order, 2060, 12, boot.as_slice());
        let fb = build_fat(self, layout, root_needed);
        let fat = fb.build(layout.fat_length_sectors);
        insert_run(&mut metadata, &mut order, 2048 + layout.fat_offset_sectors, layout.fat_length_sectors, fat.as_slice());
        let bitmap = generate_bitmap(layout.cluster_count, allocated);
        let mut root = vstd::slice::slice_to_vec(self.root_dir_entries.as_slice());
        if root.len() >= 64 {
            let lenb = u64_le(bitmap.len() as u64);
            copy_into(&mut root, 56, lenb.as_slice());
        }
        let rl = root.len() as u64;
        assert(rl <= root_needed * 4096) by (nonlinear_arith)
            requires
                root_needed == ((if bv.root.len() > 4096 { bv.root.len() as int } else { 4096 }) + 4095) / 4096,
                rl == bv.root.len(),
        ;
        pad_zeros(&mut root, root_needed * 4096);
        assert(root@ =~= gen_root(bv, *layout));
        insert_run(&mut metadata, &mut order, layout.cluster_to_sector(3), 8, bitmap.as_slice());
        insert_run(&mut metadata, &mut order, layout.cluster_to_sector(2), 8, root.as_slice());
        let mut root_clusters: Vec<u32> = Vec::new();
        root_clusters.push(2);
        if extra > 0 {
            assert(root@.len() >= 4096) by (nonlinear_arith)
                requires root@.len() == root_needed * 4096, root_needed >= 1;
            let tail = vstd::slice::slice_subrange(root.as_slice(), 4096, root.len());
            assert(tail@ =~= root@.skip(4096));
            insert_run(&mut metadata, &mut order, layout.cluster_to_sector(extra_start), extra * 8, tail);
            let mut more = contiguous_clusters(extra_start, extra);
            root_clusters.append(&mut more);
        }
        assert(root_clusters@ =~= seq![2u32] + contig(bv.next, root_needed - 1));
        assert(meta_view(metadata@) == fixed_metadata(bv, *layout, serial));
        (metadata, order, root_clusters)
    }

    /// Generates the volume: layout, metadata sectors (MBR, boot regions, FAT,
    /// bitmap, root directory, metadata allocations) and file data mappings.
    /// Fails with `InvalidInput` when the clusters would leave 32 bits or the FAT
    /// does not fit in memory.
    pub fn generate(self) -> (r: Result<VirtualVolume, IoError>)
        requires
            builder_ok(self@),
        ensures
            ({
                let p = gen_plan(self@);
                let layout = gen_layout(self@, self.spec_min_total_bytes());
                &&& r is Err <==> (p.allocated + 2 > u32::MAX || layout.fat_length_sectors * 512 > usize::MAX)
                &&& r matches Ok(v) ==> {
                    &&& v.spec_layout() == layout
                    &&& exists|serial: u32| v.spec_metadata() == alloc_sectors(fixed_metadata(self@, layout, serial), layout, self@.allocs)
                    &&& v.spec_files() == gen_files(layout, self@.maps)
                    &&& forall|s: u64| v.spec_order().contains(s) <==> v.spec_metadata().dom().contains(s)
                    &&& v.spec_dirs() == seq![(seq!['/'], seq![2u32] + contig(self@.next, p.root_needed - 1))] + self@.dirs
                    &&& v.spec_ranges() == Seq::new(self@.maps.len(), |k: int| range_of(layout, self@.maps[k]))
                    &&& v.spec_sector_map().len() == self@.maps.len()
                    &&& forall|k: int| 0 <= k < self@.maps.len() ==> (#[trigger] v.spec_sector_map()[k]) == (
                        self@.maps[k].name,
                        Seq::new(
                            ((self@.maps[k].file_size + 511) / 512) as nat,
                            |q: int| (layout.spec_cluster_to_sector(self@.maps[k].start_cluster as int) + q) as u64,
                        ),
                    )
                }
            }),
    {
        let ghost bv = self@;
        let ghost p = gen_plan(bv);
        let root_len: u64 = if self.root_dir_entries.len() > 4096 { self.root_dir_entries.len() as u64 } else { 4096 };
        let root_needed: u64 = root_len / 4096 + if root_len % 4096 == 0 { 0 } else { 1 };
        assert(root_needed == p.root_needed);
        let extra: u64 = root_needed - 1;
        if self.next_cluster as u64 + extra > 0xFFFF_FFFF {
            return Err(io_error(ErrorKind::InvalidInput, "virtual volume exceeds 32-bit cluster numbers"));
        }
        let allocated: u32 = (self.next_cluster as u64 + extra - 2) as u32;
        let layout = DiskLayout::new_with_min_total_bytes(allocated, self.min_total_bytes);
        assert(layout == gen_layout(bv, self.spec_min_total_bytes()));
        proof {
            layout.lemma_bounds();
        }
        if layout.fat_length_sectors > (usize::MAX / 512) as u64 {
            return Err(io_error(ErrorKind::InvalidInput, "virtual volume FAT does not fit in memory"));
        }
        let (mut metadata, mut order, root_clusters) = self.fixed_sectors(&layout, root_needed, allocated);
        let ghost serial = choose|serial: u32| meta_view(metadata@) == fixed_metadata(bv, layout, serial);
        let ghost av = bv.allocs;
        assert forall|k: int| 0 <= k < av.len() implies 2 <= (#[trigger] av[k]).start by {}
        insert_allocs(&mut metadata, &mut order, &layout, &self.cluster_allocations, Ghost(av));
        let ghost mvs = bv.maps;
        let (files, sector_map, ranges) = map_files(&layout, &self.file_mappings, Ghost(mvs));
        let mut dirs: Vec<(String, Vec<u32>)> = Vec::new();
        let mut root_path = String::new();
        crate::text::push_char(&mut root_path, '/');
        dirs.push((root_path, root_clusters));
        let mut more_dirs = self.directories;
        dirs.append(&mut more_dirs);
        let v = VirtualVolume {
            metadata_sectors: metadata,
            metadata_order: order,
            file_data_sectors: files,
            layout,
            file_sector_map: sector_map,
            directories: dirs,
            file_ranges: ranges,
        };
        proof {
            assert forall|s: u64| v.spec_order().contains(s) <==> v.spec_metadata().dom().contains(s) by {
                assert(v.spec_metadata().dom() =~= v.metadata_sectors@.dom());
            }
            assert(v.spec_dirs() =~= seq![(seq!['/'], seq![2u32] + contig(bv.next, p.root_needed - 1))] + bv.dirs);
            assert forall|k: int| 0 <= k < bv.maps.len() implies (#[trigger] v.spec_sector_map()[k]) == (
                bv.maps[k].name,
                Seq::new(
                    ((bv.maps[k].file_size + 511) / 512) as nat,
                    |q: int| (layout.spec_cluster_to_sector(bv.maps[k].start_cluster as int) + q) as u64,
                ),
            ) by {
                assert(v.file_sector_map@[k].1@ =~= Seq::new(
                    ((bv.maps[k].file_size + 511) / 512) as nat,
                    |q: int| (layout.spec_cluster_to_sector(bv.maps[k].start_cluster as int) + q) as u64,
                ));
            }
        }
        Ok(v)
    }
}

impl VirtualVolume {
    /// The metadata sectors.
    pub closed spec fn spec_metadata(&self) -> Map<u64, Seq<u8>> {
        meta_view(self.metadata_sectors@)
    }

    /// The file data sectors.
    pub closed spec fn spec_files(&self) -> Map<u64, FileSectorView> {
        files_view(self.file_data_sectors@)
    }

    /// The disk layout.
    pub closed spec fn spec_layout(&self) -> DiskLayout {
        self.layout
    }

    /// The metadata sector numbers, in generation order.
    pub closed spec fn spec_order(&self) -> Seq<u64> {
        self.metadata_order@
    }

    /// The data sectors of each file, by name, in allocation order.
    pub closed spec fn spec_sector_map(&self) -> Seq<(Seq<char>, Seq<u64>)> {
        self.file_sector_map@.map_values(|e: (String, Vec<u64>)| (e.0@, e.1@))
    }

    /// The clusters of each directory, root first.
    pub closed spec fn spec_dirs(&self) -> Seq<(Seq<char>, Seq<u32>)> {
        self.directories@.map_values(|d: (String, Vec<u32>)| (d.0@, d.1@))
    }

    /// The data range of each file.
    pub closed spec fn spec_ranges(&self) -> Seq<RangeView> {
        ranges_view(self.file_ranges@)
    }

    /// The layout is well formed.
    pub open spec fn wf(&self) -> bool {
        self.spec_layout().wf()
    }
}

/// The index of the last entry of `m` before `n` named `name`.
pub open spec fn last_named(m: Seq<(Seq<char>, Seq<u64>)>, name: Seq<char>, n: int) -> Option<int>
    decreases n,
{
    if n <= 0 || n > m.len() {
        None
    } else if m[n - 1].0 == name {
        Some(n - 1)
    } else {
        last_named(m, name, n - 1)
    }
}

/// The builder state after allocating the controlled tree `tree`.
pub open spec fn tree_builder(tree: Seq<ControlledEntry>, snap: PolicySnapshot) -> BuilderView {
    alloc_entries(metadata_builder(), tree, snap)
}

impl VirtualVolume {
    /// Builds the volume of the controlled tree `tree` for a disk of at least
    /// `source_size_bytes` bytes. Fails with `InvalidInput` when the clusters
    /// would leave 32 bits or the FAT does not fit in memory.
    pub fn build_with_capacity(tree: &[ControlledEntry], snapshot: &PolicySnapshot, source_size_bytes: u64) -> (r: Result<
        Self,
        IoError,
    >)
        ensures
            ({
                let b = tree_builder(tree@, *snapshot);
                let p = gen_plan(b);
                let layout = gen_layout(b, source_size_bytes);
                &&& r is Err <==> (b.next > u32::MAX || p.allocated + 2 > u32::MAX || layout.fat_length_sectors * 512
                    > usize::MAX)
                &&& r matches Ok(v) ==> {
                    &&& v.wf()
                    &&& v.spec_layout() == layout
                    &&& exists|serial: u32| v.spec_metadata() == alloc_sectors(fixed_metadata(b, layout, serial), layout, b.allocs)
                    &&& v.spec_files() == gen_files(layout, b.maps)
                    &&& forall|s: u64| v.spec_order().contains(s) <==> v.spec_metadata().dom().contains(s)
                    &&& v.spec_dirs() == seq![(seq!['/'], seq![2u32] + contig(b.next, p.root_needed - 1))] + b.dirs
                    &&& v.spec_ranges() == Seq::new(b.maps.len(), |k: int| range_of(layout, b.maps[k]))
                    &&& v.spec_sector_map().len() == b.maps.len()
                    &&& forall|k: int| 0 <= k < b.maps.len() ==> (#[trigger] v.spec_sector_map()[k]) == (
                        b.maps[k].name,
                        Seq::new(
                            ((b.maps[k].file_size + 511) / 512) as nat,
                            |q: int| (layout.spec_cluster_to_sector(b.maps[k].start_cluster as int) + q) as u64,
                        ),
                    )
                }
            }),
    {
        let mut builder = VolumeBuilder::new(source_size_bytes);
        proof {
            assert(builder_ok(metadata_builder()));
        }
        if !builder.allocate_files(tree, snapshot) {
            return Err(io_error(ErrorKind::InvalidInput, "virtual volume exceeds 32-bit cluster numbers"));
        }
        proof {
            lemma_alloc_entries_ok(metadata_builder(), tree@, *snapshot);
        }
        let r = builder.generate();
        proof {
            if r is Ok {
                DiskLayout::lemma_spec_new_wf(gen_layout(tree_builder(tree@, *snapshot), source_size_bytes).cluster_count);
            }
        }
        r
    }

    /// Builds the volume of the controlled tree `tree` at its natural size.
    pub fn build(tree: &[ControlledEntry], snapshot: &PolicySnapshot) -> (r: Result<Self, IoError>)
        ensures
            ({
                let b = tree_builder(tree@, *snapshot);
                let p = gen_plan(b);
                let layout = gen_layout(b, 0);
                &&& r is Err <==> (b.next > u32::MAX || p.allocated + 2 > u32::MAX || layout.fat_length_sectors * 512
                    > usize::MAX)
                &&& r matches Ok(v) ==> v.wf() && v.spec_layout() == layout && v.spec_files() == gen_files(layout, b.maps)
                    && v.spec_sector_map().len() == b.maps.len() && (forall|k: int| 0 <= k < b.maps.len() ==> (
                    #[trigger] v.spec_sector_map()[k]) == (
                    b.maps[k].name,
                    Seq::new(
                        ((b.maps[k].file_size + 511) / 512) as nat,
                        |q: int| (layout.spec_cluster_to_sector(b.maps[k].start_cluster as int) + q) as u64,
                    ),
                )) && exists|serial: u32| v.spec_metadata() == alloc_sectors(fixed_metadata(b, layout, serial), layout, b.allocs)
            }),
    {
        Self::build_with_capacity(tree, snapshot, 0)
    }

    /// The content of `sector`: generated metadata, mapped file data, or zeros
    /// (also for sectors past the end of the disk).
    pub fn read_sector(&self, sector: u64) -> (r: SectorContent)
        ensures
            sector >= self.spec_layout().total_sectors ==> r is Zero,
            sector < self.spec_layout().total_sectors && self.spec_metadata().contains_key(sector) ==> (r matches SectorContent::Metadata(d)
                && d@ == self.spec_metadata()[sector]),
            sector < self.spec_layout().total_sectors && !self.spec_metadata().contains_key(sector)
                && self.spec_files().contains_key(sector) ==> (r matches SectorContent::FileData { real_path, offset, valid_bytes, blocked }
                && real_path@ == self.spec_files()[sector].real_path && offset == self.spec_files()[sector].offset
                && valid_bytes == self.spec_files()[sector].valid_bytes && blocked == self.spec_files()[sector].blocked),
            sector < self.spec_layout().total_sectors && !self.spec_metadata().contains_key(sector)
                && !self.spec_files().contains_key(sector) ==> r is Zero,
    {
        if sector >= self.layout.total_sectors {
            return SectorContent::Zero;
        }
        match self.metadata_sectors.get(&sector) {
            Some(d) => {
                return SectorContent::Metadata(vstd::slice::slice_to_vec(d.as_slice()));
            },
            None => {},
        }
        match self.file_data_sectors.get(&sector) {
            Some(m) => SectorContent::FileData {
                real_path: m.real_path.clone(),
                offset: m.offset,
                valid_bytes: m.valid_bytes,
                blocked: m.blocked,
            },
            None => SectorContent::Zero,
        }
    }

    /// The number of sectors of the disk.
    pub fn total_sectors(&self) -> (r: u64)
        ensures
            r == self.spec_layout().total_sectors,
    {
        self.layout.total_sectors
    }

    /// The disk layout.
    pub fn layout(&self) -> (r: &DiskLayout)
        ensures
            *r == self.spec_layout(),
    {
        &self.layout
    }

    /// The data sectors of the file named `name` (the last one of that name), or
    /// none.
    pub fn find_file_data_sectors(&self, name: &str) -> (r: Vec<u64>)
        ensures
            match last_named(self.spec_sector_map(), name@, self.spec_sector_map().len() as int) {
                Some(i) => r@ == self.spec_sector_map()[i].1,
                None => r@ == Seq::<u64>::empty(),
            },
    {
        let mut i: usize = self.file_sector_map.len();
        while i > 0
            invariant
                i <= self.file_sector_map@.len(),
                last_named(self.spec_sector_map(), name@, self.spec_sector_map().len() as int) == last_named(
                    self.spec_sector_map(),
                    name@,
                    i as int,
                ),
            decreases i,
        {
            assert(self.spec_sector_map()[i - 1] == (self.file_sector_map@[i - 1].0@, self.file_sector_map@[i - 1].1@));
            if crate::strings::str_eq(self.file_sector_map[i - 1].0.as_str(), name) {
                return vstd::slice::slice_to_vec(self.file_sector_map[i - 1].1.as_slice());
            }
            i = i - 1;
        }
        Vec::new()
    }

    /// Whether `sector` holds generated directory data in the cluster heap.
    pub fn is_directory_sector(&self, sector: u64) -> (r: bool)
        requires
            self.wf(),
        ensures
            r == (self.spec_metadata().contains_key(sector) && self.spec_layout().spec_sector_to_cluster(sector as int)
                is Some),
    {
        let present = match self.metadata_sectors.get(&sector) {
            Some(_) => true,
            None => false,
        };
        present && self.layout.sector_to_cluster(sector).is_some()
    }

    /// The clusters of every directory, root first.
    pub fn directory_cluster_entries(&self) -> (r: Vec<(String, Vec<u32>)>)
        ensures
            r@.map_values(|d: (String, Vec<u32>)| (d.0@, d.1@)) == self.spec_dirs(),
    {
        let mut out: Vec<(String, Vec<u32>)> = Vec::new();
        let mut i: usize = 0;
        while i < self.directories.len()
            invariant
                i <= self.directories@.len(),
                out@.map_values(|d: (String, Vec<u32>)| (d.0@, d.1@)) == self.spec_dirs().take(i as int),
            decreases self.directories@.len() - i,
        {
            let d = &self.directories[i];
            let ghost prev = out@.map_values(|d: (String, Vec<u32>)| (d.0@, d.1@));
            assert(self.spec_dirs()[i as int] == (d.0@, d.1@));
            assert(self.spec_dirs().take(i + 1) =~= self.spec_dirs().take(i as int).push((d.0@, d.1@)));
            out.push((d.0.clone(), vstd::slice::slice_to_vec(d.1.as_slice())));
            assert(out@.map_values(|d: (String, Vec<u32>)| (d.0@, d.1@)) =~= prev.push((d.0@, d.1@)));
            assert(out@.map_values(|d: (String, Vec<u32>)| (d.0@, d.1@)) =~= self.spec_dirs().take(i + 1));
            i = i + 1;
        }
        assert(self.spec_dirs().take(self.directories@.len() as int) =~= self.spec_dirs());
        out
    }

    /// The sector numbers of the generated metadata.
    pub fn metadata_sector_numbers(&self) -> (r: Vec<u64>)
        ensures
            r@ == self.spec_order(),
    {
        vstd::slice::slice_to_vec(self.metadata_order.as_slice())
    }

    /// The data range of every mapped file.
    pub fn file_data_range_entries(&self) -> (r: Vec<FileDataRangeInfo>)
        ensures
            ranges_view(r@) == self.spec_ranges(),
    {
        let mut out: Vec<FileDataRangeInfo> = Vec::new();
        let mut i: usize = 0;
        while i < self.file_ranges.len()
            invariant
                i <= self.file_ranges@.len(),
                ranges_view(out@) == self.spec_ranges().take(i as int),
            decreases self.file_ranges@.len() - i,
        {
            let f = &self.file_ranges[i];
            let ghost prev = ranges_view(out@);
            let ghost fv = RangeView {
                real_path: f.real_path@,
                start_sector: f.start_sector,
                sector_count: f.sector_count,
                offset: f.offset,
                byte_len: f.byte_len,
            };
            assert(self.spec_ranges()[i as int] == fv);
            assert(self.spec_ranges().take(i + 1) =~= self.spec_ranges().take(i as int).push(fv));
            out.push(FileDataRangeInfo {
                real_path: f.real_path.clone(),
                start_sector: f.start_sector,
                sector_count: f.sector_count,
                offset: f.offset,
                byte_len: f.byte_len,
            });
            assert(ranges_view(out@) =~= prev.push(fv));
            i = i + 1;
        }
        assert(self.spec_ranges().take(self.file_ranges@.len() as int) =~= self.spec_ranges());
        out
    }
}

} // verus!
