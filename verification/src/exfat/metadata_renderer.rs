//! Rendering committed exFAT metadata (FAT, allocation bitmap, directories)
//! from the authoritative runtime state.
use vstd::prelude::*;
use crate::bytes::{le32, zero_bytes};
use crate::error::{io_error, ErrorKind, IoError};
use crate::exfat::dir_entry::{build_file_entry_set, spec_file_entry_set};
use crate::exfat::directory_store::{first_with_path, DirectoryRecord};
use crate::exfat::fat::{spec_fat_bytes, FatBuilder};
use crate::exfat::metadata_state::ExfatMetadataState;
use crate::exfat::runtime_state::node_at;
use crate::exfat::transaction::CommittedMetadataUpdate;
use crate::exfat::transaction_resolver::sector_insert;
use crate::layout::{DiskLayout, FAT_END_OF_CHAIN, FAT_MEDIA_TYPE, PARTITION_OFFSET_SECTORS};
use crate::text::encode_utf16;
use crate::vfs::index::{find_id, VfsIndex};
use crate::vfs::node::{FileViewSpec, NodeId, NodeView, VfsNode, VfsNodeKind};

verus! {

broadcast use vstd::std_specs::vec::group_vec_axioms;

/// Renders committed metadata.
#[derive(Debug, Default, Clone)]
pub struct MetadataRenderer;

/// The view of a metadata update: its sector and data.
pub open spec fn update_view(u: CommittedMetadataUpdate) -> (u64, Seq<u8>) {
    match u {
        CommittedMetadataUpdate::Sector { sector, data } => (sector, data@),
    }
}

/// The views of a list of updates.
pub open spec fn updates_view(v: Seq<CommittedMetadataUpdate>) -> Seq<(u64, Seq<u8>)> {
    v.map_values(|u: CommittedMetadataUpdate| update_view(u))
}

/// The FAT entry of cluster `c`: the media type, the end-of-chain mark, the
/// chain link the metadata holds, or free.
pub open spec fn fat_entry_value(fat: Map<u32, u32>, count: u32, c: int) -> u32 {
    if c == 0 {
        FAT_MEDIA_TYPE
    } else if c == 1 {
        FAT_END_OF_CHAIN
    } else if 2 <= c < count + 2 && fat.contains_key(c as u32) {
        fat[c as u32]
    } else {
        0
    }
}

/// The sectors of `data` from `start` on, one update per 512 bytes.
pub open spec fn sector_updates(start: int, data: Seq<u8>, n: nat) -> Seq<(u64, Seq<u8>)> {
    Seq::new(n, |k: int| ((start + k) as u64, data.subrange(k * 512, k * 512 + 512)))
}

/// The rendered FAT of the metadata.
pub open spec fn fat_updates(m: ExfatMetadataState, layout: DiskLayout) -> Seq<(u64, Seq<u8>)> {
    let entries = Seq::new(
        (m.spec_fat_count() + 2) as nat,
        |c: int| fat_entry_value(m.spec_fat(), m.spec_fat_count(), c),
    );
    let len = layout.fat_length_sectors * 512;
    sector_updates(
        PARTITION_OFFSET_SECTORS + layout.fat_offset_sectors,
        spec_fat_bytes(entries, len),
        layout.fat_length_sectors as nat,
    )
}

/// The byte length of the rendered bitmap: whole clusters, at least one.
pub open spec fn bitmap_len(count: u32) -> int {
    let bytes = (count + 7) / 8;
    let clusters = (bytes + 4095) / 4096;
    (if clusters < 1 { 1 } else { clusters }) * 4096
}

/// Bit `b` of `x`.
pub open spec fn bit_of(x: u8, b: u8) -> bool {
    (x >> b) & 1u8 == 1u8
}

/// The rendered bitmap bytes: bit `b` of byte `j` tells whether cluster
/// `2 + 8 j + b` is allocated.
pub open spec fn bitmap_ok(data: Seq<u8>, alloc: Set<u32>) -> bool {
    forall|j: int, b: u8|
        0 <= j < data.len() && b < 8 ==> (#[trigger] bit_of(data[j], b) <==> alloc.contains((2 + 8 * j + b) as u32)
            && 2 + 8 * j + b <= u32::MAX)
}

/// The rendered bitmap bytes of the metadata: its allocated clusters, one
/// bit each, over whole clusters.
pub open spec fn bitmap_data(m: ExfatMetadataState) -> Seq<u8> {
    choose|d: Seq<u8>| d.len() == bitmap_len(m.spec_bitmap_count()) && bitmap_ok(d, m.spec_bitmap())
}

/// The rendered bitmap of the metadata, from the first sector of cluster 3 on.
pub open spec fn bitmap_updates(m: ExfatMetadataState, layout: DiskLayout) -> Seq<(u64, Seq<u8>)> {
    sector_updates(layout.spec_cluster_to_sector(3), bitmap_data(m), (bitmap_len(m.spec_bitmap_count()) / 512) as nat)
}

/// The length of a directory entry's data: the clusters of a directory, the
/// size of a file.
pub open spec fn entry_data_length(store: Seq<DirectoryRecord>, n: NodeView) -> u64 {
    if n.kind == VfsNodeKind::Directory {
        match first_with_path(store, n.virtual_path) {
            Some(i) => ((store[i].clusters@.len() * 4096) % 0x1_0000_0000_0000_0000) as u64,
            None => 0,
        }
    } else {
        n.size
    }
}

/// The entry set of a child node.
pub open spec fn child_entry_set(store: Seq<DirectoryRecord>, n: NodeView) -> Seq<u8> {
    spec_file_entry_set(
        encode_utf16(n.name),
        n.kind == VfsNodeKind::Directory,
        match n.first_cluster {
            Some(c) => c,
            None => 0,
        },
        entry_data_length(store, n),
        n.file_view matches Some(FileViewSpec::Blocked { .. }),
    )
}

/// The entry sets of the children `ids`, in order; none when one is missing.
pub open spec fn children_entries(nodes: Seq<NodeView>, store: Seq<DirectoryRecord>, ids: Seq<NodeId>) -> Option<Seq<u8>>
    decreases ids.len(),
{
    if ids.len() == 0 {
        Some(seq![])
    } else {
        match children_entries(nodes, store, ids.drop_last()) {
            None => None,
            Some(b) => match find_id(nodes, ids.last()) {
                None => None,
                Some(k) => Some(b + child_entry_set(store, nodes[k])),
            },
        }
    }
}

/// `b` cut or zero-padded to `n` bytes.
pub open spec fn resized(b: Seq<u8>, n: int) -> Seq<u8> {
    Seq::new(n as nat, |i: int| if i < b.len() { b[i] } else { 0u8 })
}

/// The rendered sectors of the directory at `path`: the entry sets of its
/// children, in order, over its clusters; none when the directory, its node or
/// a child is missing, or a cluster is not a data cluster.
pub open spec fn directory_updates(nodes: Seq<NodeView>, store: Seq<DirectoryRecord>, layout: DiskLayout, path: Seq<char>) -> Option<
    Seq<(u64, Seq<u8>)>,
> {
    match first_with_path(store, path) {
        None => None,
        Some(ri) => match node_at(nodes, path) {
            None => None,
            Some(n) => match children_entries(nodes, store, n.children) {
                None => None,
                Some(b) => {
                    let cs = store[ri].clusters@;
                    if exists|j: int| 0 <= j < cs.len() && cs[j] < 2 {
                        None
                    } else {
                        let img = resized(b, (cs.len() * 4096) as int);
                        Some(
                            Seq::new(
                                cs.len() * 8,
                                |k: int|
                                    (
                                        (layout.spec_cluster_to_sector(cs[k / 8] as int) + k % 8) as u64,
                                        img.subrange(k * 512, k * 512 + 512),
                                    ),
                            ),
                        )
                    }
                },
            },
        },
    }
}

/// The updates with each sector once, in sector order, the last update of a
/// sector winning.
pub open spec fn merged(us: Seq<(u64, Seq<u8>)>) -> Seq<(u64, Seq<u8>)>
    decreases us.len(),
{
    if us.len() == 0 {
        seq![]
    } else {
        sector_insert(merged(us.drop_last()), us.last().0, us.last().1)
    }
}

/// Splits `data` into one update per sector from `start` on.
fn split_sectors(start: u64, data: &Vec<u8>, n: u64) -> (r: Vec<CommittedMetadataUpdate>)
    requires
        data@.len() == n * 512,
        start + n <= u64::MAX,
    ensures
        updates_view(r@) == sector_updates(start as int, data@, n as nat),
{
    let mut out: Vec<CommittedMetadataUpdate> = Vec::new();
    let dl: usize = data.len();
    let mut k: u64 = 0;
    while k < n
        invariant
            k <= n,
            data@.len() == n * 512,
            dl == data@.len(),
            start + n <= u64::MAX,
            updates_view(out@) == sector_updates(start as int, data@, n as nat).take(k as int),
        decreases n - k,
    {
        assert(k * 512 + 512 <= n * 512) by (nonlinear_arith)
            requires
                k < n,
        ;
        let a: usize = (k * 512) as usize;
        let piece = vstd::slice::slice_subrange(data.as_slice(), a, a + 512);
        let u = CommittedMetadataUpdate::Sector { sector: start + k, data: vstd::slice::slice_to_vec(piece) };
        let ghost before = updates_view(out@);
        out.push(u);
        assert(updates_view(out@) =~= before.push(update_view(u)));
        assert(sector_updates(start as int, data@, n as nat).take(k + 1) =~= before.push(update_view(u)));
        k = k + 1;
    }
    assert(sector_updates(start as int, data@, n as nat).take(n as int) =~= sector_updates(start as int, data@, n as nat));
    out
}

/// Setting bit `bb` of `x` keeps its other bits.
proof fn lemma_set_bit(x: u8, bb: u8, b: u8)
    requires
        bb < 8,
        b < 8,
    ensures
        bit_of(x | (1u8 << bb), b) <==> bit_of(x, b) || b == bb,
{
    assert(((x | (1u8 << bb)) >> b) & 1u8 == 1u8 <==> ((x >> b) & 1u8 == 1u8 || b == bb)) by (bit_vector)
        requires
            bb < 8,
            b < 8,
    ;
}

/// Two bytes with the same eight bits are equal.
proof fn lemma_bits_eq(x: u8, y: u8)
    requires
        bit_of(x, 0) == bit_of(y, 0),
        bit_of(x, 1) == bit_of(y, 1),
        bit_of(x, 2) == bit_of(y, 2),
        bit_of(x, 3) == bit_of(y, 3),
        bit_of(x, 4) == bit_of(y, 4),
        bit_of(x, 5) == bit_of(y, 5),
        bit_of(x, 6) == bit_of(y, 6),
        bit_of(x, 7) == bit_of(y, 7),
    ensures
        x == y,
{
    assert(x == y) by (bit_vector)
        requires
            ((x >> 0u8) & 1u8 == 1u8) == ((y >> 0u8) & 1u8 == 1u8),
            ((x >> 1u8) & 1u8 == 1u8) == ((y >> 1u8) & 1u8 == 1u8),
            ((x >> 2u8) & 1u8 == 1u8) == ((y >> 2u8) & 1u8 == 1u8),
            ((x >> 3u8) & 1u8 == 1u8) == ((y >> 3u8) & 1u8 == 1u8),
            ((x >> 4u8) & 1u8 == 1u8) == ((y >> 4u8) & 1u8 == 1u8),
            ((x >> 5u8) & 1u8 == 1u8) == ((y >> 5u8) & 1u8 == 1u8),
            ((x >> 6u8) & 1u8 == 1u8) == ((y >> 6u8) & 1u8 == 1u8),
            ((x >> 7u8) & 1u8 == 1u8) == ((y >> 7u8) & 1u8 == 1u8),
    ;
}

/// The bitmap bytes are fixed by the allocated clusters and their number.
proof fn lemma_bitmap_unique(d1: Seq<u8>, d2: Seq<u8>, alloc: Set<u32>)
    requires
        d1.len() == d2.len(),
        bitmap_ok(d1, alloc),
        bitmap_ok(d2, alloc),
    ensures
        d1 == d2,
{
    assert forall|j: int| 0 <= j < d1.len() implies d1[j] == d2[j] by {
        assert(bit_of(d1[j], 0) == bit_of(d2[j], 0));
        assert(bit_of(d1[j], 1) == bit_of(d2[j], 1));
        assert(bit_of(d1[j], 2) == bit_of(d2[j], 2));
        assert(bit_of(d1[j], 3) == bit_of(d2[j], 3));
        assert(bit_of(d1[j], 4) == bit_of(d2[j], 4));
        assert(bit_of(d1[j], 5) == bit_of(d2[j], 5));
        assert(bit_of(d1[j], 6) == bit_of(d2[j], 6));
        assert(bit_of(d1[j], 7) == bit_of(d2[j], 7));
        lemma_bits_eq(d1[j], d2[j]);
    }
    assert(d1 =~= d2);
}

/// No bit of zero is set.
proof fn lemma_zero_bits(b: u8)
    requires
        b < 8,
    ensures
        !bit_of(0u8, b),
{
    assert((0u8 >> b) & 1u8 != 1u8) by (bit_vector)
        requires
            b < 8,
    ;
}

impl MetadataRenderer {
    /// Renders the FAT sectors of the metadata.
    pub fn render_fat(&self, metadata: &ExfatMetadataState, layout: &DiskLayout) -> (r: Vec<CommittedMetadataUpdate>)
        requires
            layout.wf(),
            layout.fat_length_sectors * 512 <= usize::MAX,
            metadata.spec_fat_count() as int + 2 <= usize::MAX,
        ensures
            updates_view(r@) == fat_updates(*metadata, *layout),
    {
        proof {
            layout.lemma_bounds();
        }
        let count = metadata.fat_cluster_count();
        let mut entries: Vec<u32> = Vec::new();
        entries.push(FAT_MEDIA_TYPE);
        entries.push(FAT_END_OF_CHAIN);
        let ghost target = Seq::new((count + 2) as nat, |c: int| fat_entry_value(metadata.spec_fat(), count, c));
        let mut c: u64 = 2;
        while c < count as u64 + 2
            invariant
                2 <= c <= count as u64 + 2,
                count == metadata.spec_fat_count(),
                target == Seq::new((count + 2) as nat, |c: int| fat_entry_value(metadata.spec_fat(), count, c)),
                entries@ == target.take(c as int),
            decreases count as u64 + 2 - c,
        {
            let v = match metadata.fat_entry_for(c as u32) {
                Some(e) => e,
                None => 0,
            };
            entries.push(v);
            assert(entries@ =~= target.take(c + 1));
            c = c + 1;
        }
        assert(entries@ =~= target);
        let builder = FatBuilder::from_entries(entries);
        let data = builder.build(layout.fat_length_sectors);
        split_sectors(PARTITION_OFFSET_SECTORS + layout.fat_offset_sectors, &data, layout.fat_length_sectors)
    }

    /// Renders the allocation bitmap sectors of the metadata, from the first
    /// sector of cluster 3 on.
    pub fn render_bitmap(&self, metadata: &ExfatMetadataState, layout: &DiskLayout) -> (r: Vec<CommittedMetadataUpdate>)
        requires
            layout.wf(),
            metadata.wf(),
        ensures
            r@.len() == bitmap_len(metadata.spec_bitmap_count()) / 512,
            forall|k: int|
                0 <= k < r@.len() ==> (#[trigger] updates_view(r@)[k]).0 == layout.spec_cluster_to_sector(3) + k,
            exists|data: Seq<u8>|
                data.len() == bitmap_len(metadata.spec_bitmap_count()) && bitmap_ok(data, metadata.spec_bitmap()) && forall|
                    k: int,
                |
                    0 <= k < r@.len() ==> (#[trigger] updates_view(r@)[k]).1 == data.subrange(k * 512, k * 512 + 512),
            updates_view(r@) == bitmap_updates(*metadata, *layout),
    {
        proof {
            layout.lemma_bounds();
        }
        let count = metadata.bitmap_cluster_count();
        let bytes: u64 = (count as u64 + 7) / 8;
        let clusters: u64 = (bytes + 4095) / 4096;
        let cl: u64 = if clusters < 1 { 1 } else { clusters };
        let len: u64 = cl * 4096;
        assert(len == bitmap_len(count));
        assert(len <= 0x2100_0000);
        let mut data = zero_bytes(len as usize);
        let alloc = metadata.allocated_clusters();
        let ghost av = alloc@;
        let mut i: usize = 0;
        proof {
            assert forall|j: int, b: u8| 0 <= j < data@.len() && b < 8 implies !#[trigger] bit_of(data@[j], b) by {
                lemma_zero_bits(b);
            }
        }
        while i < alloc.len()
            invariant
                i <= av.len(),
                av == alloc@,
                av.no_duplicates(),
                data@.len() == len,
                len <= 0x2100_0000,
                forall|j: int, b: u8|
                    0 <= j < data@.len() && b < 8 ==> (#[trigger] bit_of(data@[j], b) <==> exists|k: int|
                        0 <= k < i && av[k] == 2 + 8 * j + b),
            decreases av.len() - i,
        {
            let c = alloc[i];
            if c >= 2 {
                let bit: u64 = (c - 2) as u64;
                let byte_index: u64 = bit / 8;
                let bit_index: u8 = (bit % 8) as u8;
                if byte_index < len {
                    let old_b = data[byte_index as usize];
                    let nb: u8 = old_b | (1u8 << bit_index);
                    data.set(byte_index as usize, nb);
                    proof {
                        assert forall|j: int, b: u8| 0 <= j < data@.len() && b < 8 implies (#[trigger] bit_of(data@[j], b)
                            <==> exists|k: int| 0 <= k < i + 1 && av[k] == 2 + 8 * j + b) by {
                            if j == byte_index {
                                lemma_set_bit(old_b, bit_index, b);
                                if b == bit_index {
                                    assert(av[i as int] == 2 + 8 * j + b);
                                }
                            }
                            if exists|k: int| 0 <= k < i + 1 && av[k] == 2 + 8 * j + b {
                                let k = choose|k: int| 0 <= k < i + 1 && av[k] == 2 + 8 * j + b;
                                if k == i {
                                    assert(j == byte_index && b == bit_index);
                                }
                            }
                        }
                    }
                } else {
                    proof {
                        assert forall|j: int, b: u8| 0 <= j < data@.len() && b < 8 implies (#[trigger] bit_of(data@[j], b)
                            <==> exists|k: int| 0 <= k < i + 1 && av[k] == 2 + 8 * j + b) by {
                            if exists|k: int| 0 <= k < i + 1 && av[k] == 2 + 8 * j + b {
                                let k = choose|k: int| 0 <= k < i + 1 && av[k] == 2 + 8 * j + b;
                                if k == i {
                                    assert(false);
                                }
                            }
                        }
                    }
                }
            } else {
                proof {
                    assert forall|j: int, b: u8| 0 <= j < data@.len() && b < 8 implies (#[trigger] bit_of(data@[j], b)
                        <==> exists|k: int| 0 <= k < i + 1 && av[k] == 2 + 8 * j + b) by {
                        if exists|k: int| 0 <= k < i + 1 && av[k] == 2 + 8 * j + b {
                            let k = choose|k: int| 0 <= k < i + 1 && av[k] == 2 + 8 * j + b;
                            if k == i {
                                assert(false);
                            }
                        }
                    }
                }
            }
            i = i + 1;
        }
        proof {
            assert forall|j: int, b: u8| 0 <= j < data@.len() && b < 8 implies (#[trigger] bit_of(data@[j], b)
                <==> metadata.spec_bitmap().contains((2 + 8 * j + b) as u32) && 2 + 8 * j + b <= u32::MAX) by {
                if exists|k: int| 0 <= k < av.len() && av[k] == 2 + 8 * j + b {
                    let k = choose|k: int| 0 <= k < av.len() && av[k] == 2 + 8 * j + b;
                    assert(av.to_set().contains(av[k]));
                }
                if metadata.spec_bitmap().contains((2 + 8 * j + b) as u32) && 2 + 8 * j + b <= u32::MAX {
                    assert(av.to_set().contains((2 + 8 * j + b) as u32));
                    let k = choose|k: int| 0 <= k < av.len() && av[k] == (2 + 8 * j + b) as u32;
                    assert(av[k] == 2 + 8 * j + b);
                }
            }
        }
        let start = layout.cluster_to_sector(3);
        assert(len % 512 == 0);
        let r = split_sectors(start, &data, len / 512);
        assert(bitmap_ok(data@, metadata.spec_bitmap()));
        assert(updates_view(r@).len() == r@.len());
        assert(forall|k: int|
            0 <= k < r@.len() ==> (#[trigger] updates_view(r@)[k]).1 == data@.subrange(k * 512, k * 512 + 512));
        proof {
            let d = bitmap_data(*metadata);
            assert(d.len() == bitmap_len(metadata.spec_bitmap_count()) && bitmap_ok(d, metadata.spec_bitmap()));
            lemma_bitmap_unique(data@, d, metadata.spec_bitmap());
            assert(updates_view(r@) =~= bitmap_updates(*metadata, *layout));
        }
        r
    }

    /// Renders the FAT and the allocation bitmap, FAT first.
    pub fn render_fat_and_bitmap(&self, metadata: &ExfatMetadataState, layout: &DiskLayout) -> (r: Vec<CommittedMetadataUpdate>)
        requires
            layout.wf(),
            metadata.wf(),
            layout.fat_length_sectors * 512 <= usize::MAX,
            metadata.spec_fat_count() as int + 2 <= usize::MAX,
        ensures
            updates_view(r@).take(layout.fat_length_sectors as int) == fat_updates(*metadata, *layout),
            r@.len() == layout.fat_length_sectors + bitmap_len(metadata.spec_bitmap_count()) / 512,
            updates_view(r@) == fat_updates(*metadata, *layout) + bitmap_updates(*metadata, *layout),
    {
        let mut updates = self.render_fat(metadata, layout);
        let ghost fv = updates_view(updates@);
        let mut bm = self.render_bitmap(metadata, layout);
        let ghost bv = updates_view(bm@);
        updates.append(&mut bm);
        assert(updates_view(updates@) =~= fv + bv);
        assert(fv.len() == layout.fat_length_sectors);
        assert((fv + bv).take(fv.len() as int) =~= fv);
        updates
    }

    /// Renders the sectors of the directory at `path`: its children's entry
    /// sets over its clusters. `NotFound` when the directory, its node or a
    /// child is missing; `InvalidData` when a cluster is not a data cluster or
    /// the directory is too large to hold.
    pub fn render_directory(&self, path: &str, index: &VfsIndex, metadata: &ExfatMetadataState, layout: &DiskLayout) -> (r:
        Result<Vec<CommittedMetadataUpdate>, IoError>)
        requires
            layout.wf(),
        ensures
            match directory_updates(index.spec_nodes(), metadata.spec_store(), *layout, path@) {
                Some(us) => if us.len() <= 0x40_0000 {
                    r matches Ok(v) && updates_view(v@) == us
                } else {
                    r matches Err(e) && e.kind == ErrorKind::InvalidData
                },
                None => r is Err,
            },
    {
        let clusters = match metadata.directory_clusters(path) {
            None => {
                return Err(io_error(ErrorKind::NotFound, "directory metadata missing"));
            },
            Some(c) => c,
        };
        let node = match index.lookup_path(path) {
            None => {
                return Err(io_error(ErrorKind::NotFound, "directory node missing"));
            },
            Some(id) => match index.node(id) {
                None => {
                    return Err(io_error(ErrorKind::NotFound, "directory node missing"));
                },
                Some(n) => n,
            },
        };
        let bytes = match children_bytes(index, metadata, &node.children) {
            None => {
                return Err(io_error(ErrorKind::NotFound, "child node missing"));
            },
            Some(b) => b,
        };
        if !all_data_clusters(clusters) {
            return Err(io_error(ErrorKind::InvalidData, "directory cluster is not a data cluster"));
        }
        if clusters.len() > 0x8_0000 {
            return Err(io_error(ErrorKind::InvalidData, "directory too large"));
        }
        let img = resize_bytes(&bytes, clusters.len() * 4096);
        Ok(cluster_updates(layout, clusters, &img))
    }

    /// The updates with each sector once, in sector order, the last update of
    /// a sector winning.
    pub fn merge_updates(&self, updates: Vec<CommittedMetadataUpdate>) -> (r: Vec<CommittedMetadataUpdate>)
        ensures
            updates_view(r@) == merged(updates_view(updates@)),
    {
        let ghost uv = updates_view(updates@);
        let mut sectors: Vec<(u64, Vec<u8>)> = Vec::new();
        let mut i: usize = 0;
        assert(uv.take(0) =~= Seq::<(u64, Seq<u8>)>::empty());
        while i < updates.len()
            invariant
                i <= updates@.len(),
                uv == updates_view(updates@),
                crate::exfat::transaction_resolver::sectors_view(sectors@) == merged(uv.take(i as int)),
            decreases updates@.len() - i,
        {
            assert(uv.take(i + 1).drop_last() =~= uv.take(i as int));
            assert(uv.take(i + 1).last() == uv[i as int]);
            match &updates[i] {
                CommittedMetadataUpdate::Sector { sector, data } => {
                    crate::exfat::transaction_resolver::insert_sector(&mut sectors, *sector, vstd::slice::slice_to_vec(data.as_slice()));
                },
            }
            i = i + 1;
        }
        assert(uv.take(uv.len() as int) =~= uv);
        let ghost sv = crate::exfat::transaction_resolver::sectors_view(sectors@);
        let mut out: Vec<CommittedMetadataUpdate> = Vec::new();
        let mut k: usize = 0;
        while k < sectors.len()
            invariant
                k <= sectors@.len(),
                sv == crate::exfat::transaction_resolver::sectors_view(sectors@),
                updates_view(out@) == sv.take(k as int),
            decreases sectors@.len() - k,
        {
            let u = CommittedMetadataUpdate::Sector {
                sector: sectors[k].0,
                data: vstd::slice::slice_to_vec(sectors[k].1.as_slice()),
            };
            let ghost before = updates_view(out@);
            out.push(u);
            assert(updates_view(out@) =~= before.push(update_view(u)));
            assert(sv.take(k + 1) =~= before.push(update_view(u)));
            k = k + 1;
        }
        assert(sv.take(sv.len() as int) =~= sv);
        out
    }
}


/// The entry sets of the children `ids`, in order; none when one is missing.
fn children_bytes(index: &VfsIndex, metadata: &ExfatMetadataState, ids: &Vec<NodeId>) -> (r: Option<Vec<u8>>)
    ensures
        match children_entries(index.spec_nodes(), metadata.spec_store(), ids@) {
            Some(b) => r matches Some(v) && v@ == b,
            None => r is None,
        },
{
    let ghost nodes = index.spec_nodes();
    let ghost store = metadata.spec_store();
    let mut bytes: Vec<u8> = Vec::new();
    let mut i: usize = 0;
    assert(ids@.take(0) =~= Seq::<NodeId>::empty());
    while i < ids.len()
        invariant
            i <= ids@.len(),
            nodes == index.spec_nodes(),
            store == metadata.spec_store(),
            children_entries(nodes, store, ids@.take(i as int)) == Some(bytes@),
        decreases ids@.len() - i,
    {
        assert(ids@.take(i + 1).drop_last() =~= ids@.take(i as int));
        assert(ids@.take(i + 1).last() == ids@[i as int]);
        let child = match index.node(ids[i]) {
            None => {
                proof {
                    lemma_children_missing(nodes, store, ids@, i as int + 1);
                }
                return None;
            },
            Some(c) => c,
        };
        let set = child_bytes(metadata, child);
        let ghost before = bytes@;
        let mut k: usize = 0;
        while k < set.len()
            invariant
                k <= set@.len(),
                bytes@ == before + set@.take(k as int),
            decreases set@.len() - k,
        {
            bytes.push(set[k]);
            k = k + 1;
            assert(bytes@ =~= before + set@.take(k as int));
        }
        assert(set@.take(set@.len() as int) =~= set@);
        i = i + 1;
    }
    assert(ids@.take(ids@.len() as int) =~= ids@);
    Some(bytes)
}

/// The entry set of the child node `child`.
fn child_bytes(metadata: &ExfatMetadataState, child: &VfsNode) -> (r: Vec<u8>)
    ensures
        r@ == child_entry_set(metadata.spec_store(), child@),
{
    let is_dir = match child.kind {
        VfsNodeKind::Directory => true,
        VfsNodeKind::File => false,
    };
    let data_length: u64 = if is_dir {
        match metadata.directory_clusters(child.virtual_path.as_str()) {
            Some(cs) => (cs.len() as u64).wrapping_mul(4096),
            None => 0,
        }
    } else {
        child.size
    };
    let fc: u32 = match child.first_cluster {
        Some(c) => c,
        None => 0,
    };
    build_file_entry_set(child.name.as_str(), is_dir, fc, data_length, child.is_blocked_placeholder())
}

/// Whether every cluster is a data cluster.
fn all_data_clusters(clusters: &[u32]) -> (r: bool)
    ensures
        r == forall|q: int| 0 <= q < clusters@.len() ==> clusters@[q] >= 2,
{
    let mut j: usize = 0;
    while j < clusters.len()
        invariant
            j <= clusters@.len(),
            forall|q: int| 0 <= q < j ==> clusters@[q] >= 2,
        decreases clusters@.len() - j,
    {
        if clusters[j] < 2 {
            return false;
        }
        j = j + 1;
    }
    true
}

/// `b` cut or zero-padded to `total` bytes.
fn resize_bytes(b: &Vec<u8>, total: usize) -> (r: Vec<u8>)
    ensures
        r@ == resized(b@, total as int),
{
    let mut img: Vec<u8> = Vec::new();
    let mut q: usize = 0;
    while q < total
        invariant
            q <= total,
            img@ == resized(b@, total as int).take(q as int),
        decreases total - q,
    {
        let x: u8 = if q < b.len() { b[q] } else { 0 };
        img.push(x);
        assert(img@ =~= resized(b@, total as int).take(q + 1));
        q = q + 1;
    }
    assert(img@ =~= resized(b@, total as int));
    img
}

/// The sectors of the directory image `img` over the clusters `cs`.
fn cluster_updates(layout: &DiskLayout, clusters: &[u32], img: &Vec<u8>) -> (r: Vec<CommittedMetadataUpdate>)
    requires
        layout.wf(),
        clusters@.len() <= 0x8_0000,
        img@.len() == clusters@.len() * 4096,
        forall|q: int| 0 <= q < clusters@.len() ==> clusters@[q] >= 2,
    ensures
        updates_view(r@) == Seq::new(
            clusters@.len() * 8,
            |k: int|
                (
                    (layout.spec_cluster_to_sector(clusters@[k / 8] as int) + k % 8) as u64,
                    img@.subrange(k * 512, k * 512 + 512),
                ),
        ),
{
    let ghost cs = clusters@;
    let ghost target = Seq::new(
        cs.len() * 8,
        |k: int| ((layout.spec_cluster_to_sector(cs[k / 8] as int) + k % 8) as u64, img@.subrange(k * 512, k * 512 + 512)),
    );
    let mut out: Vec<CommittedMetadataUpdate> = Vec::new();
    let n: usize = clusters.len() * 8;
    let mut k: usize = 0;
    while k < n
        invariant
            k <= n == cs.len() * 8,
            cs == clusters@,
            cs.len() <= 0x8_0000,
            img@.len() == cs.len() * 4096,
            layout.wf(),
            forall|q: int| 0 <= q < cs.len() ==> cs[q] >= 2,
            target == Seq::new(
                cs.len() * 8,
                |k: int| ((layout.spec_cluster_to_sector(cs[k / 8] as int) + k % 8) as u64, img@.subrange(k * 512, k * 512 + 512)),
            ),
            updates_view(out@) == target.take(k as int),
        decreases n - k,
    {
        let c = clusters[k / 8];
        let base = layout.cluster_to_sector(c);
        proof {
            layout.lemma_bounds();
        }
        assert(k * 512 + 512 <= cs.len() * 4096) by (nonlinear_arith)
            requires
                k < cs.len() * 8,
        ;
        let a: usize = k * 512;
        let piece = vstd::slice::slice_subrange(img.as_slice(), a, a + 512);
        let u = CommittedMetadataUpdate::Sector { sector: base + (k % 8) as u64, data: vstd::slice::slice_to_vec(piece) };
        let ghost before = updates_view(out@);
        out.push(u);
        assert(updates_view(out@) =~= before.push(update_view(u)));
        assert(target.take(k + 1) =~= before.push(update_view(u)));
        k = k + 1;
    }
    assert(target.take(target.len() as int) =~= target);
    out
}

/// A child missing from a prefix of the children makes rendering fail.
proof fn lemma_children_missing(nodes: Seq<NodeView>, store: Seq<DirectoryRecord>, ids: Seq<NodeId>, i: int)
    requires
        0 <= i <= ids.len(),
        children_entries(nodes, store, ids.take(i)) is None,
    ensures
        children_entries(nodes, store, ids) is None,
    decreases ids.len() - i,
{
    if i < ids.len() {
        assert(ids.take(i + 1).drop_last() =~= ids.take(i));
        lemma_children_missing(nodes, store, ids, i + 1);
    } else {
        assert(ids.take(i) =~= ids);
    }
}

} // verus!
