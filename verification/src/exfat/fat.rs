//! Static FAT table generation.
use vstd::prelude::*;
use crate::bytes::{copy_into, le32, u32_le, zero_bytes};
use crate::layout::{FAT_END_OF_CHAIN, FAT_MEDIA_TYPE, SECTOR_SIZE};

verus! {

/// FAT chain builder.
pub struct FatBuilder {
    entries: Vec<u32>,
}

/// A chain of `count` clusters from `start`: each links to the next, the last ends the chain.
pub open spec fn chain_entries(old_entries: Seq<u32>, start: int, count: int) -> Seq<u32> {
    Seq::new(
        old_entries.len(),
        |k: int|
            if start <= k < start + count {
                if k + 1 < start + count { (k + 1) as u32 } else { FAT_END_OF_CHAIN }
            } else {
                old_entries[k]
            },
    )
}

/// FAT bytes for `entries`, padded with zeros to `len` bytes.
pub open spec fn spec_fat_bytes(entries: Seq<u32>, len: int) -> Seq<u8> {
    Seq::new(len as nat, |k: int| if k / 4 < entries.len() { le32(entries[k / 4])[k % 4] } else { 0 })
}

impl FatBuilder {
    /// The FAT entries (entry 0 and 1 are reserved).
    pub closed spec fn view(&self) -> Seq<u32> {
        self.entries@
    }

    /// Creates a builder for `cluster_count` clusters: entry 0 holds the media type,
    /// entry 1 the end-of-chain mark, all others are free.
    pub fn new(cluster_count: u32) -> (b: Self)
        requires
            cluster_count as int + 2 <= usize::MAX,
        ensures
            b.view().len() == cluster_count + 2,
            b.view()[0] == FAT_MEDIA_TYPE,
            b.view()[1] == FAT_END_OF_CHAIN,
            forall|k: int| 2 <= k < cluster_count + 2 ==> #[trigger] b.view()[k] == 0,
    {
        let total: usize = cluster_count as usize + 2;
        let mut entries = vec![0u32; total];
        entries.set(0, FAT_MEDIA_TYPE);
        entries.set(1, FAT_END_OF_CHAIN);
        FatBuilder { entries }
    }

    /// A builder holding the entries `entries`.
    pub fn from_entries(entries: Vec<u32>) -> (b: Self)
        ensures
            b.view() == entries@,
    {
        FatBuilder { entries }
    }

    /// Marks `cluster` as a one-cluster chain.
    pub fn set_single(&mut self, cluster: u32)
        requires
            cluster < old(self).view().len(),
        ensures
            final(self).view() == old(self).view().update(cluster as int, FAT_END_OF_CHAIN),
    {
        self.entries.set(cluster as usize, FAT_END_OF_CHAIN);
    }

    /// Links `count` contiguous clusters from `start_cluster` into one chain
    /// and returns the first cluster.
    pub fn set_chain(&mut self, start_cluster: u32, count: u32) -> (r: u32)
        requires
            start_cluster + count <= old(self).view().len(),
            start_cluster + count <= u32::MAX + 1,
        ensures
            r == start_cluster,
            final(self).view() == chain_entries(old(self).view(), start_cluster as int, count as int),
    {
        let ghost orig = self.entries@;
        let mut i: u32 = 0;
        while i < count
            invariant
                i <= count,
                start_cluster + count <= orig.len(),
                start_cluster + count <= u32::MAX + 1,
                self.entries@.len() == orig.len(),
                forall|k: int|
                    0 <= k < orig.len() ==> #[trigger] self.entries@[k] == (if start_cluster <= k
                        < start_cluster + i {
                        chain_entries(orig, start_cluster as int, count as int)[k]
                    } else {
                        orig[k]
                    }),
            decreases count - i,
        {
            let cluster = start_cluster + i;
            if i + 1 < count {
                self.entries.set(cluster as usize, cluster + 1);
            } else {
                self.entries.set(cluster as usize, FAT_END_OF_CHAIN);
            }
            i = i + 1;
        }
        assert(self.entries@ =~= chain_entries(orig, start_cluster as int, count as int));
        start_cluster
    }

    /// Links `first_cluster` to a contiguous run of `extra_count` clusters from `extra_start`.
    pub fn set_chain_from_parts(&mut self, first_cluster: u32, extra_start: u32, extra_count: u32)
        requires
            first_cluster < old(self).view().len(),
            extra_start + extra_count <= old(self).view().len(),
            extra_start + extra_count <= u32::MAX + 1,
        ensures
            final(self).view() == chain_entries(
                old(self).view().update(first_cluster as int, extra_start),
                extra_start as int,
                extra_count as int,
            ),
    {
        self.entries.set(first_cluster as usize, extra_start);
        let _ = self.set_chain(extra_start, extra_count);
    }

    /// Serializes the FAT into `fat_length_sectors` sectors of little-endian entries.
    pub fn build(&self, fat_length_sectors: u64) -> (data: Vec<u8>)
        requires
            fat_length_sectors * 512 <= usize::MAX,
        ensures
            data@ == spec_fat_bytes(self.view(), fat_length_sectors * 512),
    {
        let size: usize = fat_length_sectors as usize * SECTOR_SIZE as usize;
        let mut data = zero_bytes(size);
        let mut i: usize = 0;
        while i < self.entries.len()
            invariant
                i <= self.entries@.len(),
                size == fat_length_sectors * 512,
                data@.len() == size,
                forall|k: int|
                    0 <= k < size ==> #[trigger] data@[k] == (if k / 4 < i && k / 4
                        < self.entries@.len() {
                        le32(self.entries@[k / 4])[k % 4]
                    } else {
                        0
                    }),
            decreases self.entries@.len() - i,
        {
            if i < size / 4 {
                let bytes = u32_le(self.entries[i]);
                copy_into(&mut data, i * 4, bytes.as_slice());
                assert forall|k: int| 0 <= k < size implies #[trigger] data@[k] == (if k / 4 < i + 1
                    && k / 4 < self.entries@.len() {
                    le32(self.entries@[k / 4])[k % 4]
                } else {
                    0
                }) by {
                    if i * 4 <= k < i * 4 + 4 {
                        assert(k / 4 == i);
                    }
                }
            }
            i = i + 1;
        }
        assert(data@ =~= spec_fat_bytes(self.entries@, fat_length_sectors * 512));
        data
    }
}

} // verus!
