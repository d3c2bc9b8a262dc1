//! Allocation bitmap generation: bit `i` stands for cluster `2 + i`.
use vstd::prelude::*;

verus! {

/// `2^k - 1` for `0 <= k <= 8`: the byte whose low `k` bits are set.
pub open spec fn low_mask(k: int) -> u8 {
    if k <= 0 { 0 } else if k == 1 { 1 } else if k == 2 { 3 } else if k == 3 { 7 } else if k == 4 {
        15
    } else if k == 5 { 31 } else if k == 6 { 63 } else if k == 7 { 127 } else { 255 }
}

/// Byte `j` of a bitmap in which exactly the first `allocated` bits are set.
pub open spec fn bitmap_byte(j: int, allocated: int) -> u8 {
    low_mask(allocated - 8 * j)
}

/// Bitmap of `cluster_count` bits (one byte per 8 clusters) whose first `allocated` bits are set.
pub open spec fn spec_bitmap(cluster_count: int, allocated: int) -> Seq<u8> {
    Seq::new(((cluster_count + 7) / 8) as nat, |j: int| bitmap_byte(j, allocated))
}

fn mask_for(k: u32) -> (m: u8)
    ensures
        m == low_mask(k as int),
{
    if k == 0 {
        0
    } else if k == 1 {
        1
    } else if k == 2 {
        3
    } else if k == 3 {
        7
    } else if k == 4 {
        15
    } else if k == 5 {
        31
    } else if k == 6 {
        63
    } else if k == 7 {
        127
    } else {
        255
    }
}

/// Generates the allocation bitmap for `cluster_count` clusters of which the first
/// `allocated_clusters` (from cluster 2 on, contiguously) are allocated.
pub fn generate_bitmap(cluster_count: u32, allocated_clusters: u32) -> (bm: Vec<u8>)
    ensures
        bm@ == spec_bitmap(cluster_count as int, allocated_clusters as int),
{
    let bitmap_bytes: usize = ((cluster_count as u64 + 7) / 8) as usize;
    let mut bitmap: Vec<u8> = Vec::new();
    let mut j: usize = 0;
    while j < bitmap_bytes
        invariant
            j <= bitmap_bytes,
            bitmap_bytes == (cluster_count + 7) / 8,
            bitmap@.len() == j,
            forall|k: int| 0 <= k < j ==> #[trigger] bitmap@[k] == bitmap_byte(k, allocated_clusters as int),
        decreases bitmap_bytes - j,
    {
        let base: u64 = 8 * j as u64;
        let m = if (allocated_clusters as u64) <= base {
            0u8
        } else {
            let diff: u64 = allocated_clusters as u64 - base;
            mask_for(if diff > 8 { 8u32 } else { diff as u32 })
        };
        bitmap.push(m);
        j = j + 1;
    }
    assert(bitmap@ =~= spec_bitmap(cluster_count as int, allocated_clusters as int));
    bitmap
}

/// Bit `i` of a generated bitmap is set exactly for the first `allocated` clusters.
pub proof fn lemma_bitmap_bit(cluster_count: int, allocated: int, i: int)
    requires
        0 <= i < cluster_count,
        allocated >= 0,
    ensures
        i / 8 < spec_bitmap(cluster_count, allocated).len(),
        ((spec_bitmap(cluster_count, allocated)[i / 8] as int / pow2_byte(i % 8)) % 2 == 1)
            <==> i < allocated,
{
    let j = i / 8;
    let b = i % 8;
    assert(i == 8 * j + b && 0 <= b < 8) by (nonlinear_arith) requires j == i / 8, b == i % 8, i >= 0;
    assert(j < (cluster_count + 7) / 8) by (nonlinear_arith)
        requires i == 8 * j + b, 0 <= b < 8, i < cluster_count;
    let k = allocated - 8 * j;
    assert((low_mask(k) as int / pow2_byte(b)) % 2 == 1 <==> b < k) by {
        assert(0 <= b < 8);
        if k <= 0 {} else if k >= 8 {} else {
            assert(1 <= k <= 7);
            assert(b == 0 || b == 1 || b == 2 || b == 3 || b == 4 || b == 5 || b == 6 || b == 7);
            assert(k == 1 || k == 2 || k == 3 || k == 4 || k == 5 || k == 6 || k == 7);
        }
    }
}

/// `2^b` for a bit position `0 <= b < 8`.
pub open spec fn pow2_byte(b: int) -> int {
    if b == 0 { 1 } else if b == 1 { 2 } else if b == 2 { 4 } else if b == 3 { 8 } else if b == 4 {
        16
    } else if b == 5 { 32 } else if b == 6 { 64 } else { 128 }
}

} // verus!
