//! Facts that carry the assembly of the runtime metadata from the generated
//! volume: which sectors the directory records own, that allocated clusters
//! are never marked free, and that owners name nodes of the index.
use vstd::prelude::*;
use crate::exfat::directory_store::DirectoryRecord;
use crate::exfat::metadata_state::{dir_owner_ok, set_of};
use crate::vfs::index::find_id;
use crate::exfat::runtime_state::owner_node_ok;
use crate::exfat::sector_owner::{
    lemma_last_range_all, lemma_owner_after_mark, lemma_owner_after_marks, owner_in, resolve_owner, OwnerRange, SectorOwner,
};
use crate::layout::DiskLayout;
use crate::vfs::node::NodeView;

verus! {

/// The first sector of cluster `c`.
pub open spec fn sec(l: DiskLayout, c: u32) -> u64 {
    l.spec_cluster_to_sector(c as int) as u64
}

/// An owner that is reported as stored and is not a free cluster.
pub open spec fn taken_owner(o: SectorOwner) -> bool {
    !(o is FreeCluster) && !(o is FreeClusterRange)
}

/// The clusters of the records (all of them, but only the first `upto` of
/// record `skip`) are allocated and owned by their directories.
pub open spec fn records_owned(
    store: Seq<DirectoryRecord>,
    bm: Set<u32>,
    l: DiskLayout,
    t: u64,
    rs: Seq<OwnerRange>,
    lk: Seq<(u32, u64, u64, u64)>,
    skip: int,
    upto: int,
) -> bool {
    forall|x: int, j: int|
        0 <= x < store.len() && 0 <= j < store[x].clusters@.len() && (x != skip || j < upto) ==> {
            let c = #[trigger] store[x].clusters@[j];
            &&& bm.contains(c)
            &&& dir_owner_ok(store[x], owner_in(t, rs, lk, sec(l, c)))
        }
}

/// No allocated cluster is owned as free.
pub open spec fn alloc_owned(bm: Set<u32>, l: DiskLayout, t: u64, rs: Seq<OwnerRange>, lk: Seq<(u32, u64, u64, u64)>) -> bool {
    forall|c: u32| #[trigger] bm.contains(c) ==> !(owner_in(t, rs, lk, sec(l, c)) is FreeCluster)
}

/// Every range's owner that names a node names one of `ns`.
pub open spec fn ranges_named(ns: Seq<NodeView>, rs: Seq<OwnerRange>) -> bool {
    forall|i: int| 0 <= i < rs.len() ==> owner_node_ok(ns, (#[trigger] rs[i]).owner)
}

/// Marking the range `r` keeps the facts, for the allocated clusters `bm2`
/// (those of `bm` and some inside `r`) and records owned up to `upto2`.
pub proof fn lemma_push_range(
    store: Seq<DirectoryRecord>,
    bm: Set<u32>,
    bm2: Set<u32>,
    l: DiskLayout,
    t: u64,
    rs: Seq<OwnerRange>,
    lk: Seq<(u32, u64, u64, u64)>,
    r: OwnerRange,
    ns: Seq<NodeView>,
    skip: int,
    upto: int,
    upto2: int,
)
    requires
        records_owned(store, bm, l, t, rs, lk, skip, upto),
        alloc_owned(bm, l, t, rs, lk),
        ranges_named(ns, rs),
        taken_owner(r.owner),
        owner_node_ok(ns, r.owner),
        forall|c: u32| #[trigger] bm2.contains(c) ==> bm.contains(c) || (r.start <= sec(l, c) < r.start + r.len
            && sec(l, c) < t),
        forall|x: int, j: int|
            0 <= x < store.len() && 0 <= j < store[x].clusters@.len() && (x != skip || j < upto2) ==> {
                let c = #[trigger] store[x].clusters@[j];
                &&& bm2.contains(c)
                &&& ((x != skip || j < upto) && !(r.start <= sec(l, c) < r.start + r.len)) || (r.start <= sec(l, c)
                    < r.start + r.len && sec(l, c) < t && dir_owner_ok(store[x], r.owner))
            },
    ensures
        records_owned(store, bm2, l, t, rs.push(r), lk, skip, upto2),
        alloc_owned(bm2, l, t, rs.push(r), lk),
        ranges_named(ns, rs.push(r)),
{
    assert forall|x: int, j: int|
        0 <= x < store.len() && 0 <= j < store[x].clusters@.len() && (x != skip || j < upto2) implies {
            let c = #[trigger] store[x].clusters@[j];
            &&& bm2.contains(c)
            &&& dir_owner_ok(store[x], owner_in(t, rs.push(r), lk, sec(l, c)))
        } by {
        let c = store[x].clusters@[j];
        lemma_owner_after_mark(t, rs, lk, r, sec(l, c));
    }
    assert forall|c: u32| #[trigger] bm2.contains(c) implies !(owner_in(t, rs.push(r), lk, sec(l, c)) is FreeCluster) by {
        lemma_owner_after_mark(t, rs, lk, r, sec(l, c));
    }
    assert forall|i: int| 0 <= i < rs.push(r).len() implies owner_node_ok(ns, (#[trigger] rs.push(r)[i]).owner) by {
        if i < rs.len() {
            assert(rs.push(r)[i] == rs[i]);
        }
    }
}

/// Marking the ranges `extra`, each of one sector, with taken owners that
/// name nodes of `ns`, keeps the facts where no record's cluster lies in
/// them, for the allocated clusters `bm2` whose first sectors they hold.
pub proof fn lemma_push_ranges(
    store: Seq<DirectoryRecord>,
    bm: Set<u32>,
    bm2: Set<u32>,
    l: DiskLayout,
    t: u64,
    rs: Seq<OwnerRange>,
    lk: Seq<(u32, u64, u64, u64)>,
    extra: Seq<OwnerRange>,
    ns: Seq<NodeView>,
)
    requires
        records_owned(store, bm, l, t, rs, lk, -1, 0),
        alloc_owned(bm, l, t, rs, lk),
        ranges_named(ns, rs),
        forall|k: int| 0 <= k < extra.len() ==> taken_owner((#[trigger] extra[k]).owner) && owner_node_ok(ns, extra[k].owner),
        forall|x: int, j: int, k: int|
            0 <= x < store.len() && 0 <= j < store[x].clusters@.len() && 0 <= k < extra.len() ==> !((#[trigger] extra[k]).start
                <= sec(l, #[trigger] store[x].clusters@[j]) < extra[k].start + extra[k].len),
        forall|c: u32| #[trigger] bm2.contains(c) ==> bm.contains(c) || (sec(l, c) < t && exists|k: int|
            0 <= k < extra.len() && (#[trigger] extra[k]).start <= sec(l, c) < extra[k].start + extra[k].len),
        forall|c: u32| bm.contains(c) ==> #[trigger] bm2.contains(c),
    ensures
        records_owned(store, bm2, l, t, rs + extra, lk, -1, 0),
        alloc_owned(bm2, l, t, rs + extra, lk),
        ranges_named(ns, rs + extra),
{
    let p = |o: SectorOwner| !(o is FreeCluster);
    assert forall|x: int, j: int|
        0 <= x < store.len() && 0 <= j < store[x].clusters@.len() && (x != -1 || j < 0) implies {
            let c = #[trigger] store[x].clusters@[j];
            &&& bm2.contains(c)
            &&& dir_owner_ok(store[x], owner_in(t, rs + extra, lk, sec(l, c)))
        } by {
        let c = store[x].clusters@[j];
        lemma_owner_after_marks(t, rs, extra, lk, sec(l, c));
        crate::exfat::sector_owner::lemma_last_range_none(extra, sec(l, c) as int, extra.len() as int);
    }
    assert forall|c: u32| #[trigger] bm2.contains(c) implies !(owner_in(t, rs + extra, lk, sec(l, c)) is FreeCluster) by {
        let s = sec(l, c);
        lemma_owner_after_marks(t, rs, extra, lk, s);
        assert forall|k: int| 0 <= k < extra.len() && extra[k].start <= s < extra[k].start + extra[k].len implies p(
            resolve_owner(#[trigger] extra[k].owner, s as int),
        ) by {}
        lemma_last_range_all(extra, s as int, extra.len() as int, p);
        if !bm.contains(c) {
            let k = choose|k: int| 0 <= k < extra.len() && (#[trigger] extra[k]).start <= s < extra[k].start + extra[k].len;
            crate::exfat::sector_owner::lemma_last_range_some(extra, s as int, extra.len() as int, k);
        }
    }
    assert forall|i: int| 0 <= i < (rs + extra).len() implies owner_node_ok(ns, (#[trigger] (rs + extra)[i]).owner) by {
        if i < rs.len() {
            assert((rs + extra)[i] == rs[i]);
        } else {
            assert((rs + extra)[i] == extra[i - rs.len()]);
        }
    }
}

/// Where every range's owner names nodes of `ns`, so does the owner of every
/// sector.
pub proof fn lemma_named_owner(ns: Seq<NodeView>, t: u64, rs: Seq<OwnerRange>, lk: Seq<(u32, u64, u64, u64)>, s: u64)
    requires
        ranges_named(ns, rs),
    ensures
        owner_node_ok(ns, owner_in(t, rs, lk, s)),
{
    let p = |o: SectorOwner| owner_node_ok(ns, o);
    assert forall|k: int| 0 <= k < rs.len() && rs[k].start <= s < rs[k].start + rs[k].len implies p(
        resolve_owner(#[trigger] rs[k].owner, s as int),
    ) by {}
    lemma_last_range_all(rs, s as int, rs.len() as int, p);
}

/// Each record is that of one of the first `n` directories of `d` (its
/// index in `src`), and names a node of `nn`.
pub open spec fn records_from(
    store: Seq<DirectoryRecord>,
    src: Seq<int>,
    d: Seq<(Seq<char>, Seq<u32>)>,
    n: int,
    nn: Seq<NodeView>,
) -> bool {
    &&& src.len() == store.len()
    &&& forall|x: int|
        0 <= x < store.len() ==> 0 <= #[trigger] src[x] < n && n <= d.len() && store[x].clusters@ == d[src[x]].1
            && store[x].virtual_path@ == d[src[x]].0 && find_id(nn, store[x].node_id) is Some
}

/// The first sector of a cluster of the heap, and its place on the disk.
pub proof fn lemma_sec(l: DiskLayout, c: u32)
    requires
        l.wf(),
        2 <= c < l.cluster_count + 2,
    ensures
        sec(l, c) == l.heap_start() + 8 * (c - 2),
        sec(l, c) + 8 <= l.total_sectors,
        l.spec_sector_to_cluster(sec(l, c) as int) == Some(c),
{
    assert(l.total_sectors == l.heap_start() + 8 * l.cluster_count);
    let x = l.spec_cluster_to_sector(c as int);
    assert(x == l.heap_start() + 8 * (c - 2));
    assert(x + 8 <= l.total_sectors);
    assert((8 * (c - 2)) / 8 == c - 2) by (nonlinear_arith);
}

/// A cluster outside `s..s+n` has its first sector outside the `8 * n`
/// sectors from the first sector of `s`.
pub proof fn lemma_sec_outside(l: DiskLayout, c: u32, s: u32, n: int)
    requires
        l.wf(),
        2 <= c < l.cluster_count + 2,
        2 <= s,
        0 <= n,
        s + n <= l.cluster_count + 2,
        !(s <= c < s + n),
    ensures
        !(sec(l, s) <= sec(l, c) < sec(l, s) + 8 * n),
{
    lemma_sec(l, c);
    if s < l.cluster_count + 2 {
        lemma_sec(l, s);
    } else {
        assert(n == 0);
    }
}

/// A file's sectors fit in its clusters.
pub proof fn lemma_sectors_in_clusters(size: u64)
    ensures
        (size + 511) / 512 <= 8 * ((size + 4095) / 4096),
{
    assert((size + 511) / 512 <= 8 * ((size + 4095) / 4096)) by (nonlinear_arith);
}

/// A member of `set_of(cs, n)` is one of the first `n` clusters of `cs`.
pub proof fn lemma_set_of_member(cs: Seq<u32>, n: int, c: u32)
    requires
        set_of(cs, n).contains(c),
    ensures
        exists|t: int| 0 <= t < n && t < cs.len() && cs[t] == c,
    decreases n,
{
    if n > 0 && n <= cs.len() && c != cs[n - 1] {
        lemma_set_of_member(cs, n - 1, c);
    }
}

} // verus!
