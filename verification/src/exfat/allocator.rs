//! A sparse sector map of a virtual disk: a zeroed boot sector and, from
//! sector 2048 on, the sectors of each file's data in index order. It holds
//! the mapping only, never an image of the disk's size.
use vstd::prelude::*;
use std::collections::HashMap;
use crate::error::{io_error, ErrorKind, IoError};
use crate::vfs::index::VfsIndex;
use crate::vfs::node::{nodes_view, NodeId, NodeView, VfsNodeKind};

verus! {

broadcast use vstd::std_specs::hash::group_hash_axioms;

/// Where a file data sector's bytes come from.
#[derive(Debug, Clone, Copy, PartialEq, Eq, Structural)]
pub struct FileExtent {
    pub node_id: NodeId,
    pub file_offset: u64,
    pub valid_bytes: u32,
}

/// The content of a sector of the map.
#[derive(Debug, Clone)]
pub enum VirtualSector {
    Metadata(Vec<u8>),
    FileData(FileExtent),
    Free,
}

/// The kind of a sector of the map.
#[derive(Debug, Clone, Copy, PartialEq, Eq, Structural)]
pub enum SectorClass {
    Boot,
    Metadata,
    FileData,
    Free,
}

/// The sector map.
#[derive(Debug, Clone)]
pub struct ExfatAllocator {
    total_sectors: u64,
    metadata_sectors: HashMap<u64, Vec<u8>>,
    file_sectors: HashMap<u64, FileExtent>,
}

/// A node whose data is mapped: a file that is no virus and not empty.
pub open spec fn extent_eligible(n: NodeView) -> bool {
    n.kind == VfsNodeKind::File && !n.is_virus && n.size > 0
}

/// The number of sectors the node's data takes in the map.
pub open spec fn extent_count(n: NodeView) -> int {
    if extent_eligible(n) {
        (n.size + 511) / 512
    } else {
        0
    }
}

/// The first sector of the data of `nodes[i]`.
pub open spec fn extents_start(nodes: Seq<NodeView>, i: int) -> int
    decreases i,
{
    if i <= 0 {
        2048
    } else {
        extents_start(nodes, i - 1) + extent_count(nodes[i - 1])
    }
}

/// The extent of sector `sec` of a node whose data starts at sector `s`.
pub open spec fn extent_of(n: NodeView, s: int, sec: int) -> FileExtent {
    let off = (sec - s) * 512;
    FileExtent {
        node_id: n.id,
        file_offset: off as u64,
        valid_bytes: (if n.size - off < 512 { n.size - off } else { 512 }) as u32,
    }
}

/// The sectors of the first `j` extents of a node whose data starts at `s`.
pub open spec fn node_extents(n: NodeView, s: int, j: int) -> Map<u64, FileExtent> {
    Map::new(|sec: u64| s <= sec < s + j, |sec: u64| extent_of(n, s, sec as int))
}

/// The file data sectors of the first `i` nodes.
pub open spec fn extents_upto(nodes: Seq<NodeView>, i: int) -> Map<u64, FileExtent>
    decreases i,
{
    if i <= 0 {
        Map::empty()
    } else {
        extents_upto(nodes, i - 1).union_prefer_right(
            node_extents(nodes[i - 1], extents_start(nodes, i - 1), extent_count(nodes[i - 1])),
        )
    }
}

/// `n` bytes in whole sectors, rounded up.
pub open spec fn sectors_for(n: u64) -> int {
    (n + 511) / 512
}

/// The data of later nodes starts no earlier.
pub proof fn lemma_extents_start_mono(nodes: Seq<NodeView>, i: int, k: int)
    requires
        0 <= i <= k,
    ensures
        extents_start(nodes, i) <= extents_start(nodes, k),
    decreases k - i,
{
    if i < k {
        lemma_extents_start_mono(nodes, i, k - 1);
    }
}

/// Every sector of the first `i` nodes lies in `2048..extents_start(i)`.
proof fn lemma_extents_upto_range(nodes: Seq<NodeView>, i: int, sec: u64)
    requires
        0 <= i,
        extents_upto(nodes, i).contains_key(sec),
    ensures
        2048 <= sec < extents_start(nodes, i),
    decreases i,
{
    if i > 0 {
        if extents_upto(nodes, i - 1).contains_key(sec) {
            lemma_extents_upto_range(nodes, i - 1, sec);
        }
        lemma_extents_start_mono(nodes, 0, i - 1);
    }
}

impl ExfatAllocator {
    /// The number of sectors of the disk.
    pub closed spec fn spec_total_sectors(&self) -> u64 {
        self.total_sectors
    }

    /// The metadata sectors.
    pub closed spec fn spec_metadata(&self) -> Map<u64, Seq<u8>> {
        self.metadata_sectors@.map_values(|d: Vec<u8>| d@)
    }

    /// The file data sectors.
    pub closed spec fn spec_files(&self) -> Map<u64, FileExtent> {
        self.file_sectors@
    }

    /// The map of a disk of `source_size_bytes` bytes holding the files of
    /// `index`: a zeroed sector 0 and the data sectors of the files in index
    /// order from sector 2048. `InvalidInput` when those sectors would pass the
    /// last sector number.
    pub fn build(index: &VfsIndex, source_size_bytes: u64) -> (r: Result<Self, IoError>)
        ensures
            extents_start(index.spec_nodes(), index.spec_nodes().len() as int) <= u64::MAX <==> r is Ok,
            r matches Err(e) ==> e.kind == ErrorKind::InvalidInput,
            r matches Ok(a) ==> {
                &&& a.spec_total_sectors() == sectors_for(source_size_bytes)
                &&& a.spec_metadata() == map![0u64 => Seq::new(512, |k: int| 0u8)]
                &&& a.spec_files() == extents_upto(index.spec_nodes(), index.spec_nodes().len() as int)
            },
    {
        let total_sectors: u64 = source_size_bytes / 512 + (if source_size_bytes % 512 != 0 { 1u64 } else { 0u64 });
        let mut metadata_sectors: HashMap<u64, Vec<u8>> = HashMap::new();
        let zero: Vec<u8> = vec![0u8; 512];
        assert(zero@ =~= Seq::new(512, |k: int| 0u8));
        metadata_sectors.insert(0, zero);
        let nodes = index.iter_nodes();
        let ghost nv = index.spec_nodes();
        let mut files: HashMap<u64, FileExtent> = HashMap::new();
        let mut sector: u64 = 2048;
        let mut i: usize = 0;
        while i < nodes.len()
            invariant
                i <= nodes@.len() == nv.len(),
                nv == index.spec_nodes(),
                nodes_view(nodes@) == nv,
                sector == extents_start(nv, i as int),
                files@ == extents_upto(nv, i as int),
            decreases nodes@.len() - i,
        {
            let node = &nodes[i];
            proof {
                assert(nv[i as int] == node@);
            }
            if node.kind == VfsNodeKind::File && !node.is_virus && node.size > 0 {
                let count: u64 = node.size / 512 + (if node.size % 512 != 0 { 1u64 } else { 0u64 });
                assert(count == extent_count(nv[i as int]));
                if count > u64::MAX - sector {
                    proof {
                        assert(extents_start(nv, i + 1) == extents_start(nv, i as int) + extent_count(nv[i as int]));
                        assert(extents_start(nv, i + 1) > u64::MAX);
                        lemma_extents_start_mono(nv, i + 1, nv.len() as int);
                        assert(extents_start(nv, nv.len() as int) > u64::MAX);
                    }
                    return Err(io_error(ErrorKind::InvalidInput, "file data passes the last sector"));
                }
                let ghost before = files@;
                let mut j: u64 = 0;
                while j < count
                    invariant
                        j <= count == extent_count(nv[i as int]),
                        count <= u64::MAX - sector,
                        node@ == nv[i as int],
                        extent_eligible(nv[i as int]),
                        sector == extents_start(nv, i as int),
                        before == extents_upto(nv, i as int),
                        files@ == before.union_prefer_right(node_extents(nv[i as int], sector as int, j as int)),
                    decreases count - j,
                {
                    assert(j * 512 < node.size) by (nonlinear_arith)
                        requires
                            j < count,
                            count == (node.size + 511) / 512,
                    ;
                    let offset: u64 = j * 512;
                    let remaining: u64 = node.size - offset;
                    let valid: u32 = if remaining < 512 { remaining as u32 } else { 512u32 };
                    files.insert(sector + j, FileExtent { node_id: node.id, file_offset: offset, valid_bytes: valid });
                    proof {
                        assert(extent_of(nv[i as int], sector as int, (sector + j) as int) == FileExtent {
                            node_id: node.id,
                            file_offset: offset,
                            valid_bytes: valid,
                        });
                        assert(files@ =~= before.union_prefer_right(
                            node_extents(nv[i as int], sector as int, j + 1),
                        ));
                    }
                    j = j + 1;
                }
                sector = sector + count;
            } else {
                assert(extent_count(nv[i as int]) == 0);
                assert(node_extents(nv[i as int], sector as int, 0) =~= Map::<u64, FileExtent>::empty());
                assert(files@ =~= extents_upto(nv, i + 1));
            }
            i = i + 1;
        }
        let a = ExfatAllocator { total_sectors, metadata_sectors, file_sectors: files };
        assert(a.spec_metadata() =~= map![0u64 => Seq::new(512, |k: int| 0u8)]);
        Ok(a)
    }

    /// The number of sectors of the disk.
    pub fn total_sectors(&self) -> (r: u64)
        ensures
            r == self.spec_total_sectors(),
    {
        self.total_sectors
    }

    /// The memory the map takes: 512 bytes per metadata sector and one extent
    /// record per file data sector (capped at `usize::MAX`).
    pub fn estimated_memory_bytes(&self) -> (r: usize)
        ensures
            r == (if self.spec_metadata().len() * 512 + self.spec_files().len() * vstd::layout::size_of::<
                FileExtent,
            >() > usize::MAX {
                usize::MAX as int
            } else {
                (self.spec_metadata().len() * 512 + self.spec_files().len() * vstd::layout::size_of::<FileExtent>()) as int
            }),
    {
        let m = self.metadata_sectors.len();
        let f = self.file_sectors.len();
        let size = std::mem::size_of::<FileExtent>();
        assert(self.spec_metadata().len() == m) by {
            assert(self.spec_metadata().dom() =~= self.metadata_sectors@.dom());
        }
        assert((f as int) * (size as int) <= 0xFFFF_FFFF_FFFF_FFFFint * 0xFFFF_FFFF_FFFF_FFFFint) by (nonlinear_arith)
            requires
                f as int <= 0xFFFF_FFFF_FFFF_FFFFint,
                size as int <= 0xFFFF_FFFF_FFFF_FFFFint,
        ;
        let a = (m as u128) * 512;
        let b = (f as u128) * (size as u128);
        assert(a == m * 512 && b == f * size) by (nonlinear_arith)
            requires
                a == (m as u128) * 512,
                b == (f as u128) * (size as u128),
                m <= usize::MAX,
                f <= usize::MAX,
                size <= usize::MAX,
        ;
        if b > usize::MAX as u128 {
            return usize::MAX;
        }
        let total = a + b;
        if total > usize::MAX as u128 {
            usize::MAX
        } else {
            total as usize
        }
    }

    /// The content of `sector`.
    pub fn read_sector(&self, sector: u64) -> (r: VirtualSector)
        ensures
            self.spec_metadata().contains_key(sector) ==> (r matches VirtualSector::Metadata(d) && d@
                == self.spec_metadata()[sector]),
            !self.spec_metadata().contains_key(sector) && self.spec_files().contains_key(sector) ==> r
                == VirtualSector::FileData(self.spec_files()[sector]),
            !self.spec_metadata().contains_key(sector) && !self.spec_files().contains_key(sector) ==> r is Free,
    {
        match self.metadata_sectors.get(&sector) {
            Some(d) => {
                return VirtualSector::Metadata(vstd::slice::slice_to_vec(d.as_slice()));
            },
            None => {},
        }
        match self.file_sectors.get(&sector) {
            Some(e) => VirtualSector::FileData(*e),
            None => VirtualSector::Free,
        }
    }

    /// The kind of `sector`: sector 0 is the boot sector.
    pub fn classify_sector(&self, sector: u64) -> (r: SectorClass)
        ensures
            r == (if sector == 0 {
                SectorClass::Boot
            } else if self.spec_metadata().contains_key(sector) {
                SectorClass::Metadata
            } else if self.spec_files().contains_key(sector) {
                SectorClass::FileData
            } else {
                SectorClass::Free
            }),
    {
        if sector == 0 {
            return SectorClass::Boot;
        }
        if self.metadata_sectors.contains_key(&sector) {
            return SectorClass::Metadata;
        }
        if self.file_sectors.contains_key(&sector) {
            return SectorClass::FileData;
        }
        SectorClass::Free
    }
}

/// No file data sector of the map lies in the boot area before sector 2048.
pub proof fn lemma_file_sectors_after_gap(nodes: Seq<NodeView>, sec: u64)
    requires
        extents_upto(nodes, nodes.len() as int).contains_key(sec),
    ensures
        2048 <= sec < extents_start(nodes, nodes.len() as int),
{
    lemma_extents_upto_range(nodes, nodes.len() as int, sec);
}

} // verus!
