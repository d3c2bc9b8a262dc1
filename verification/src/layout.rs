//! exFAT disk layout constants and offset arithmetic, in sectors.
use vstd::prelude::*;

verus! {

/// Sector size in bytes.
pub const SECTOR_SIZE: u32 = 512;

/// Cluster size in bytes.
pub const CLUSTER_SIZE: u32 = 4096;

/// Sectors per cluster.
pub const SECTORS_PER_CLUSTER: u32 = 8;

/// SectorsPerClusterShift (log2(8) = 3).
pub const SECTORS_PER_CLUSTER_SHIFT: u8 = 3;

/// BytesPerSectorShift (log2(512) = 9).
pub const BYTES_PER_SECTOR_SHIFT: u8 = 9;

/// Sector holding the MBR.
pub const MBR_SECTOR: u64 = 0;

/// Partition start sector (standard alignment).
pub const PARTITION_OFFSET_SECTORS: u64 = 2048;

/// Boot region size in sectors: boot sector, 8 extended, OEM, reserved, checksum.
pub const BOOT_REGION_SECTORS: u64 = 12;

/// exFAT file system revision (1.00).
pub const FS_REVISION: u16 = 0x0100;

/// Boot sector signature (offset 510-511).
pub const BOOT_SIGNATURE: u16 = 0xAA55;

/// Bytes per FAT entry.
pub const FAT_ENTRY_SIZE: u32 = 4;

/// FAT media-type marker (entry 0).
pub const FAT_MEDIA_TYPE: u32 = 0xFFFFFFF8;

/// FAT end-of-chain marker.
pub const FAT_END_OF_CHAIN: u32 = 0xFFFFFFFF;

/// First data cluster number.
pub const FIRST_CLUSTER: u32 = 2;

/// Size of one exFAT directory entry in bytes.
pub const DIR_ENTRY_SIZE: u32 = 32;

/// Smallest virtual volume exposed when no larger source size is requested.
pub const MIN_VIRTUAL_VOLUME_BYTES: u64 = 0;

/// Aligns `value` upwards to a multiple of `alignment`.
pub open spec fn spec_align_up(value: int, alignment: int) -> int {
    (value + alignment - 1) / alignment * alignment
}

/// FAT length in sectors for `count` data clusters (entries 0 and 1 are reserved).
pub open spec fn spec_fat_length(count: int) -> int {
    ((count + 2) * 4 + 511) / 512
}

/// Cluster heap offset (relative to the partition) for `count` data clusters.
pub open spec fn spec_heap_offset(count: int) -> int {
    spec_align_up(24 + spec_fat_length(count), 8)
}

/// Virtual volume disk layout. All offsets are in sectors.
#[derive(Debug, Clone, Copy)]
pub struct DiskLayout {
    /// FAT start, relative to the partition start.
    pub fat_offset_sectors: u64,
    /// FAT length.
    pub fat_length_sectors: u64,
    /// Cluster heap start, relative to the partition start.
    pub cluster_heap_offset_sectors: u64,
    /// Number of data clusters (numbered from cluster 2).
    pub cluster_count: u32,
    /// Total sectors of the virtual disk (MBR, gap and partition).
    pub total_sectors: u64,
    /// Sectors of the volume itself (without MBR and gap).
    pub volume_length_sectors: u64,
}

impl DiskLayout {
    /// The layout that `new` computes for `count` data clusters.
    pub open spec fn spec_new(count: u32) -> DiskLayout {
        let heap = spec_heap_offset(count as int);
        DiskLayout {
            fat_offset_sectors: 24,
            fat_length_sectors: spec_fat_length(count as int) as u64,
            cluster_heap_offset_sectors: heap as u64,
            cluster_count: count,
            total_sectors: (2048 + heap + count * 8) as u64,
            volume_length_sectors: (heap + count * 8) as u64,
        }
    }

    /// Absolute sector of the first sector of `cluster`.
    pub open spec fn spec_cluster_to_sector(self, cluster: int) -> int {
        2048 + self.cluster_heap_offset_sectors + (cluster - 2) * 8
    }

    /// Absolute sector where the cluster heap begins.
    pub open spec fn heap_start(self) -> int {
        2048 + self.cluster_heap_offset_sectors
    }

    /// The layout's fields are those `new` computes for its cluster count.
    pub open spec fn wf(self) -> bool {
        self == Self::spec_new(self.cluster_count)
    }

    /// Computes the disk layout for `data_cluster_count` data clusters.
    pub fn new(data_cluster_count: u32) -> (l: Self)
        ensures
            l == Self::spec_new(data_cluster_count),
            l.wf(),
    {
        let fat_offset_sectors: u64 = BOOT_REGION_SECTORS * 2;
        let fat_entries: u64 = data_cluster_count as u64 + FIRST_CLUSTER as u64;
        assert(fat_entries <= 0x1_0000_0001);
        let fat_bytes: u64 = fat_entries * 4;
        let fat_length_sectors: u64 = (fat_bytes + SECTOR_SIZE as u64 - 1) / SECTOR_SIZE as u64;
        let raw_heap_offset: u64 = fat_offset_sectors + fat_length_sectors;
        let cluster_heap_offset_sectors = align_up(raw_heap_offset, SECTORS_PER_CLUSTER as u64);
        assert(cluster_heap_offset_sectors <= raw_heap_offset + 8) by (nonlinear_arith)
            requires
                cluster_heap_offset_sectors == (raw_heap_offset + 7) / 8 * 8,
        ;
        let volume_length_sectors: u64 = cluster_heap_offset_sectors + data_cluster_count as u64
            * SECTORS_PER_CLUSTER as u64;
        let total_sectors: u64 = PARTITION_OFFSET_SECTORS + volume_length_sectors;
        DiskLayout {
            fat_offset_sectors,
            fat_length_sectors,
            cluster_heap_offset_sectors,
            cluster_count: data_cluster_count,
            total_sectors,
            volume_length_sectors,
        }
    }

    /// Computes a layout holding at least `allocated_clusters` clusters and, where the
    /// requested size allows, enough clusters that the disk spans `min_total_bytes`.
    pub fn new_with_min_total_bytes(allocated_clusters: u32, min_total_bytes: u64) -> (l: Self)
        ensures
            l.wf(),
            l.cluster_count == Self::spec_min_cluster_count(allocated_clusters, min_total_bytes),
    {
        let min_sectors: u64 = min_total_bytes / 512 + (if min_total_bytes % 512 != 0 { 1u64 } else { 0u64 });
        let mut count: u32 = allocated_clusters;
        if min_sectors > PARTITION_OFFSET_SECTORS {
            let needed: u64 = (min_sectors - PARTITION_OFFSET_SECTORS + 7) / 8;
            if needed > count as u64 {
                count = if needed > 0xFFFF_0000u64 { 0xFFFF_0000u32 } else { needed as u32 };
                if count < allocated_clusters {
                    count = allocated_clusters;
                }
            }
        }
        Self::new(count)
    }

    /// Cluster count chosen by `new_with_min_total_bytes`.
    pub open spec fn spec_min_cluster_count(allocated: u32, min_total_bytes: u64) -> u32 {
        let min_sectors = min_total_bytes / 512 + (if min_total_bytes % 512 != 0 { 1int } else { 0int });
        if min_sectors > 2048 {
            let needed = (min_sectors - 2048 + 7) / 8;
            if needed > allocated {
                let capped = if needed > 0xFFFF_0000 { 0xFFFF_0000int } else { needed };
                if capped < allocated { allocated } else { capped as u32 }
            } else {
                allocated
            }
        } else {
            allocated
        }
    }

    /// Cluster size in bytes.
    pub fn cluster_size(&self) -> (r: u32)
        ensures
            r == CLUSTER_SIZE,
    {
        CLUSTER_SIZE
    }

    /// Sectors per cluster.
    pub fn sectors_per_cluster(&self) -> (r: u32)
        ensures
            r == SECTORS_PER_CLUSTER,
    {
        SECTORS_PER_CLUSTER
    }

    /// First byte past the end of the virtual disk.
    pub fn end_byte_exclusive(&self) -> (r: u64)
        requires
            self.wf(),
        ensures
            r == self.total_sectors * 512,
    {
        proof { self.lemma_bounds(); }
        self.total_sectors * SECTOR_SIZE as u64
    }

    /// The layout `new` computes is well formed.
    pub proof fn lemma_spec_new_wf(count: u32)
        ensures
            Self::spec_new(count).wf(),
    {
    }

    /// Size facts of a well-formed layout.
    pub proof fn lemma_bounds(self)
        requires
            self.wf(),
        ensures
            self.fat_length_sectors <= 0x1_0000_0000,
            self.cluster_heap_offset_sectors <= 0x1_0000_0100,
            self.cluster_heap_offset_sectors >= 24 + self.fat_length_sectors,
            self.cluster_heap_offset_sectors % 8 == 0,
            self.total_sectors == 2048 + self.cluster_heap_offset_sectors + self.cluster_count * 8,
            self.total_sectors <= 0x10_0000_0000,
    {
        let c = self.cluster_count as int;
        let f = spec_fat_length(c);
        assert(f <= 0x1_0000_0000);
        let h = spec_align_up(24 + f, 8);
        assert(h <= 24 + f + 8 && h >= 24 + f && h % 8 == 0) by (nonlinear_arith)
            requires
                h == (24 + f + 7) / 8 * 8,
                f >= 0,
        ;
    }

    /// Converts a cluster number into its first absolute sector.
    pub fn cluster_to_sector(&self, cluster: u32) -> (s: u64)
        requires
            self.wf(),
            cluster >= FIRST_CLUSTER,
        ensures
            s == self.spec_cluster_to_sector(cluster as int),
    {
        proof { self.lemma_bounds(); }
        let offset_in_heap: u64 = (cluster as u64 - FIRST_CLUSTER as u64) * SECTORS_PER_CLUSTER as u64;
        PARTITION_OFFSET_SECTORS + self.cluster_heap_offset_sectors + offset_in_heap
    }

    /// The cluster that holds absolute sector `sector`, if it lies in the cluster heap.
    pub open spec fn spec_sector_to_cluster(self, sector: int) -> Option<u32> {
        if sector < self.heap_start() {
            None
        } else {
            let cluster = (sector - self.heap_start()) / 8 + 2;
            if cluster >= 2 + self.cluster_count || cluster > u32::MAX {
                None
            } else {
                Some(cluster as u32)
            }
        }
    }

    /// Converts an absolute sector into its cluster number.
    pub fn sector_to_cluster(&self, sector: u64) -> (r: Option<u32>)
        requires
            self.wf(),
        ensures
            r == self.spec_sector_to_cluster(sector as int),
    {
        proof { self.lemma_bounds(); }
        let heap_start: u64 = PARTITION_OFFSET_SECTORS + self.cluster_heap_offset_sectors;
        if sector < heap_start {
            return None;
        }
        let offset: u64 = sector - heap_start;
        let idx: u64 = offset / SECTORS_PER_CLUSTER as u64;
        if idx >= self.cluster_count as u64 || idx > 0xFFFF_FFFDu64 {
            return None;
        }
        Some(idx as u32 + FIRST_CLUSTER)
    }

    /// A cluster's sectors map back to that cluster.
    pub proof fn lemma_cluster_sector_roundtrip(self, cluster: u32, i: int)
        requires
            self.wf(),
            FIRST_CLUSTER <= cluster,
            cluster < FIRST_CLUSTER + self.cluster_count,
            0 <= i < 8,
        ensures
            self.spec_sector_to_cluster(self.spec_cluster_to_sector(cluster as int) + i)
                == Some(cluster),
    {
        let d = (cluster as int - 2) * 8 + i;
        assert(d / 8 == cluster as int - 2) by (nonlinear_arith)
            requires d == (cluster as int - 2) * 8 + i, 0 <= i < 8, cluster >= 2;
    }
}

fn align_up(value: u64, alignment: u64) -> (r: u64)
    requires
        alignment > 0,
        value + alignment <= u64::MAX,
    ensures
        r == spec_align_up(value as int, alignment as int),
{
    let q = (value + alignment - 1) / alignment;
    assert(q * alignment <= value + alignment - 1) by (nonlinear_arith)
        requires
            q == (value + alignment - 1) as int / alignment as int,
            alignment > 0,
    ;
    q * alignment
}

} // verus!
