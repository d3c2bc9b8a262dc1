//! Where the volume generator puts the clusters of a controlled tree: every
//! directory and file gets clusters of its own, inside the disk.
use vstd::prelude::*;
use crate::exfat::volume::{
    alloc_children, alloc_entries, alloc_entry, alloc_file, contig, file_clusters_spec, gen_layout, gen_plan,
    lemma_alloc_children_grows, metadata_builder, tree_builder, BuilderView, MappingView,
};
use crate::strings::join_virtual_path_spec;
use crate::types::{ControlledEntry, PolicySnapshot};
use crate::vfs::index::{entry_found, find_path, forest_found, placeholder_size};
use crate::vfs::node::NodeView;

verus! {

/// Cluster `c` lies in the clusters of the file mapping `m`.
pub open spec fn in_file(m: MappingView, c: int) -> bool {
    m.start_cluster <= c < m.start_cluster + file_clusters_spec(m.file_size)
}

/// Some node of `ns` has the real path of `m`, sized as the file or as the
/// placeholder.
pub open spec fn file_node(ns: Seq<NodeView>, m: MappingView) -> bool {
    exists|i: int|
        0 <= i < ns.len() && (#[trigger] ns[i]).real_path == m.real_path && (ns[i].size == m.file_size || ns[i].size
            == placeholder_size())
}

/// The directories `dirs` have clusters from `lo` up to (not including) `hi`, no
/// two of them share a cluster, none lies in a file of `maps`, and each
/// directory's path names a node of `ns`.
pub open spec fn dirs_apart(dirs: Seq<(Seq<char>, Seq<u32>)>, maps: Seq<MappingView>, lo: int, hi: int, ns: Seq<NodeView>) -> bool {
    &&& forall|k: int, j: int| 0 <= k < dirs.len() && 0 <= j < dirs[k].1.len() ==> lo <= #[trigger] dirs[k].1[j] < hi
    &&& forall|k1: int, j1: int, k2: int, j2: int|
        0 <= k1 < k2 < dirs.len() && 0 <= j1 < dirs[k1].1.len() && 0 <= j2 < dirs[k2].1.len() ==> #[trigger] dirs[k1].1[j1]
            != #[trigger] dirs[k2].1[j2]
    &&& forall|k: int, j: int, q: int|
        0 <= k < dirs.len() && 0 <= j < dirs[k].1.len() && 0 <= q < maps.len() ==> !in_file(
            #[trigger] maps[q],
            #[trigger] dirs[k].1[j] as int,
        )
    &&& forall|k: int| 0 <= k < dirs.len() ==> find_path(ns, (#[trigger] dirs[k]).0) is Some
}

/// Every file of `maps` has clusters from `lo` up to `hi`, is not empty, and
/// has a node in `ns`.
pub open spec fn files_inside(maps: Seq<MappingView>, lo: int, hi: int, ns: Seq<NodeView>) -> bool {
    forall|q: int|
        0 <= q < maps.len() ==> lo <= (#[trigger] maps[q]).start_cluster && maps[q].start_cluster + file_clusters_spec(
            maps[q].file_size,
        ) <= hi && maps[q].file_size > 0 && file_node(ns, maps[q])
}

/// The builder's allocations so far lie in `4..next` and are apart.
#[verifier::opaque]
pub open spec fn plan_ok(b: BuilderView, ns: Seq<NodeView>) -> bool {
    &&& 4 <= b.next
    &&& dirs_apart(b.dirs, b.maps, 4, b.next, ns)
    &&& files_inside(b.maps, 4, b.next, ns)
}

proof fn lemma_alloc_file_plan(b: BuilderView, e: ControlledEntry, snap: PolicySnapshot, ns: Seq<NodeView>)
    requires
        plan_ok(b, ns),
        alloc_file(b, e, snap).0.next <= u32::MAX,
        exists|i: int|
            0 <= i < ns.len() && (#[trigger] ns[i]).real_path == e.real_path@ && (ns[i].size == e.file_size
                || ns[i].size == placeholder_size()),
    ensures
        plan_ok(alloc_file(b, e, snap).0, ns),
        alloc_file(b, e, snap).0.next >= b.next,
        alloc_file(b, e, snap).0.dirs == b.dirs,
{
    reveal(plan_ok);
    let b2 = alloc_file(b, e, snap).0;
    let n = file_clusters_spec(e.file_size);
    if !(e.is_virus || e.file_size == 0) {
        assert(n >= 1);
        let m = b2.maps[b.maps.len() as int];
        assert(m.start_cluster == b.next);
        assert(file_node(ns, m));
        assert forall|k: int, j: int, q: int|
            0 <= k < b2.dirs.len() && 0 <= j < b2.dirs[k].1.len() && 0 <= q < b2.maps.len() implies !in_file(
            #[trigger] b2.maps[q],
            #[trigger] b2.dirs[k].1[j] as int,
        ) by {
            if q < b.maps.len() {
                assert(b2.maps[q] == b.maps[q]);
            }
        }
        assert forall|q: int| 0 <= q < b2.maps.len() implies 4 <= (#[trigger] b2.maps[q]).start_cluster
            && b2.maps[q].start_cluster + file_clusters_spec(b2.maps[q].file_size) <= b2.next && b2.maps[q].file_size > 0
            && file_node(ns, b2.maps[q]) by {
            if q < b.maps.len() {
                assert(b2.maps[q] == b.maps[q]);
            }
        }
    }
}

/// A directory with fresh clusters keeps the plan apart.
proof fn lemma_push_dir_plan(b1: BuilderView, b2: BuilderView, d: (Seq<char>, Seq<u32>), ns: Seq<NodeView>)
    requires
        plan_ok(b1, ns),
        b2.dirs == b1.dirs.push(d),
        b2.maps == b1.maps,
        b2.next >= b1.next,
        forall|j: int| 0 <= j < d.1.len() ==> b1.next <= #[trigger] d.1[j] < b2.next,
        find_path(ns, d.0) is Some,
    ensures
        plan_ok(b2, ns),
{
    reveal(plan_ok);
    assert forall|k1: int, j1: int, k2: int, j2: int|
        0 <= k1 < k2 < b2.dirs.len() && 0 <= j1 < b2.dirs[k1].1.len() && 0 <= j2 < b2.dirs[k2].1.len() implies #[trigger] b2.dirs[k1].1[j1]
        != #[trigger] b2.dirs[k2].1[j2] by {
        assert(b2.dirs[k1] == b1.dirs[k1]);
        if k2 < b1.dirs.len() {
            assert(b2.dirs[k2] == b1.dirs[k2]);
        }
    }
    assert forall|k: int, j: int| 0 <= k < b2.dirs.len() && 0 <= j < b2.dirs[k].1.len() implies 4 <= #[trigger] b2.dirs[k].1[j] < b2.next by {
        if k < b1.dirs.len() {
            assert(b2.dirs[k] == b1.dirs[k]);
        }
    }
    assert forall|k: int, j: int, q: int|
        0 <= k < b2.dirs.len() && 0 <= j < b2.dirs[k].1.len() && 0 <= q < b2.maps.len() implies !in_file(
        #[trigger] b2.maps[q],
        #[trigger] b2.dirs[k].1[j] as int,
    ) by {
        if k < b1.dirs.len() {
            assert(b2.dirs[k] == b1.dirs[k]);
        }
    }
    assert forall|k: int| 0 <= k < b2.dirs.len() implies find_path(ns, (#[trigger] b2.dirs[k]).0) is Some by {
        if k < b1.dirs.len() {
            assert(b2.dirs[k] == b1.dirs[k]);
        }
    }
    assert forall|q: int| 0 <= q < b2.maps.len() implies 4 <= (#[trigger] b2.maps[q]).start_cluster
        && b2.maps[q].start_cluster + file_clusters_spec(b2.maps[q].file_size) <= b2.next && b2.maps[q].file_size > 0
        && file_node(ns, b2.maps[q]) by {
        assert(b2.maps[q] == b1.maps[q]);
    }
}

/// The builder after the last child, from the builder before it.
proof fn lemma_children_last(b: BuilderView, path: Seq<char>, cs: Seq<ControlledEntry>, snap: PolicySnapshot)
    requires
        cs.len() > 0,
    ensures
        ({
            let b1 = alloc_children(b, path, cs.drop_last(), snap).0;
            let b2 = alloc_children(b, path, cs, snap).0;
            let c = cs.last();
            if c.is_dir {
                &&& b2.dirs == b1.dirs.push((join_virtual_path_spec(path, c.virtual_name@), seq![b1.next as u32]))
                &&& b2.maps == b1.maps
                &&& b2.next == b1.next + 1
            } else {
                b2 == alloc_file(b1, c, snap).0
            }
        }),
{
}

proof fn lemma_alloc_file_grows(b: BuilderView, e: ControlledEntry, snap: PolicySnapshot)
    ensures
        alloc_file(b, e, snap).0.next >= b.next,
        alloc_file(b, e, snap).0.dirs == b.dirs,
{
    if !(e.is_virus || e.file_size == 0) {
        assert(file_clusters_spec(e.file_size) >= 0);
    }
}

/// What an entry found in `ns` gives: a directory's path names a node, a
/// file's real path is that of a node sized as the file or the placeholder.
pub open spec fn entry_facts(ns: Seq<NodeView>, path: Seq<char>, c: ControlledEntry) -> bool {
    &&& c.is_dir ==> find_path(ns, join_virtual_path_spec(path, c.virtual_name@)) is Some
    &&& !c.is_dir ==> exists|i: int|
        0 <= i < ns.len() && (#[trigger] ns[i]).real_path == c.real_path@ && (ns[i].size == c.file_size || ns[i].size
            == placeholder_size())
}

proof fn lemma_entry_facts(ns: Seq<NodeView>, path: Seq<char>, c: ControlledEntry)
    requires
        entry_found(ns, path, c),
    ensures
        entry_facts(ns, path, c),
{
    let cp = join_virtual_path_spec(path, c.virtual_name@);
    crate::vfs::index::lemma_find_path(ns, cp, 0);
    let i = find_path(ns, cp)->Some_0;
    assert(ns[i].real_path == c.real_path@);
}

proof fn lemma_child_step(b1: BuilderView, b2: BuilderView, path: Seq<char>, c: ControlledEntry, snap: PolicySnapshot, ns: Seq<NodeView>)
    requires
        plan_ok(b1, ns),
        entry_facts(ns, path, c),
        b2.next <= u32::MAX,
        c.is_dir ==> b2.dirs == b1.dirs.push((join_virtual_path_spec(path, c.virtual_name@), seq![b1.next as u32]))
            && b2.maps == b1.maps && b2.next == b1.next + 1,
        !c.is_dir ==> b2 == alloc_file(b1, c, snap).0,
    ensures
        plan_ok(b2, ns),
{
    let cp = join_virtual_path_spec(path, c.virtual_name@);
    if c.is_dir {
        let cc = b1.next;
        let d = (cp, seq![cc as u32]);
        assert(b1.next >= 4) by {
            reveal(plan_ok);
        }
        assert((cc as u32) as int == cc);
        lemma_push_dir_plan(b1, b2, d, ns);
    } else {
        lemma_alloc_file_plan(b1, c, snap, ns);
    }
}

proof fn lemma_alloc_children_plan(
    b: BuilderView,
    path: Seq<char>,
    cs: Seq<ControlledEntry>,
    snap: PolicySnapshot,
    ns: Seq<NodeView>,
)
    requires
        plan_ok(b, ns),
        forest_found(ns, path, cs),
        alloc_children(b, path, cs, snap).0.next <= u32::MAX,
    ensures
        plan_ok(alloc_children(b, path, cs, snap).0, ns),
    decreases cs.len(),
{
    if cs.len() > 0 {
        let b1 = alloc_children(b, path, cs.drop_last(), snap).0;
        let c = cs.last();
        let b2 = alloc_children(b, path, cs, snap).0;
        lemma_children_last(b, path, cs, snap);
        lemma_alloc_file_grows(b1, c, snap);
        lemma_alloc_children_plan(b, path, cs.drop_last(), snap, ns);
        lemma_entry_facts(ns, path, c);
        lemma_child_step(b1, b2, path, c, snap, ns);
    }
}

proof fn lemma_entry_children(ns: Seq<NodeView>, path: Seq<char>, e: ControlledEntry)
    requires
        entry_found(ns, path, e),
    ensures
        forest_found(ns, join_virtual_path_spec(path, e.virtual_name@), e.children@),
{
}

/// `plan_ok` reads only the next cluster, the directories and the files.
proof fn lemma_plan_same(b: BuilderView, c: BuilderView, ns: Seq<NodeView>)
    requires
        b.next == c.next,
        b.dirs == c.dirs,
        b.maps == c.maps,
        plan_ok(b, ns),
    ensures
        plan_ok(c, ns),
{
    reveal(plan_ok);
}

/// The builder after the last top-level entry, from the builder before it.
proof fn lemma_entries_last(b: BuilderView, es: Seq<ControlledEntry>, snap: PolicySnapshot)
    requires
        es.len() > 0,
    ensures
        ({
            let b0 = alloc_entries(b, es.drop_last(), snap);
            let e = es.last();
            let b2 = alloc_entries(b, es, snap);
            let path = join_virtual_path_spec(seq!['/'], e.virtual_name@);
            if e.is_dir {
                let b1 = alloc_children(b0, path, e.children@, snap).0;
                &&& b2.dirs == b1.dirs.push((path, contig(b1.next, b2.next - b1.next)))
                &&& b2.maps == b1.maps
                &&& b2.next >= b1.next + 1
            } else {
                let f = alloc_file(b0, e, snap).0;
                b2.next == f.next && b2.dirs == f.dirs && b2.maps == f.maps
            }
        }),
{
}

proof fn lemma_top_dir_step(b1: BuilderView, b2: BuilderView, path: Seq<char>, ns: Seq<NodeView>)
    requires
        plan_ok(b1, ns),
        b2.dirs == b1.dirs.push((path, contig(b1.next, b2.next - b1.next))),
        b2.maps == b1.maps,
        b2.next >= b1.next + 1,
        b2.next <= u32::MAX,
        find_path(ns, path) is Some,
    ensures
        plan_ok(b2, ns),
{
    assert(b1.next >= 4) by {
        reveal(plan_ok);
    }
    let cl = contig(b1.next, b2.next - b1.next);
    assert forall|j: int| 0 <= j < cl.len() implies b1.next <= #[trigger] cl[j] < b2.next by {
        assert(b1.next + j <= u32::MAX);
    }
    lemma_push_dir_plan(b1, b2, (path, cl), ns);
}

proof fn lemma_alloc_entries_plan(b: BuilderView, es: Seq<ControlledEntry>, snap: PolicySnapshot, ns: Seq<NodeView>)
    requires
        plan_ok(b, ns),
        forest_found(ns, seq!['/'], es),
        alloc_entries(b, es, snap).next <= u32::MAX,
    ensures
        plan_ok(alloc_entries(b, es, snap), ns),
    decreases es.len(),
{
    if es.len() > 0 {
        let b0 = alloc_entries(b, es.drop_last(), snap);
        let e = es.last();
        let b2 = alloc_entries(b, es, snap);
        let path = join_virtual_path_spec(seq!['/'], e.virtual_name@);
        lemma_entries_last(b, es, snap);
        lemma_entry_facts(ns, seq!['/'], e);
        if e.is_dir {
            let b1 = alloc_children(b0, path, e.children@, snap).0;
            lemma_alloc_children_grows(b0, path, e.children@, snap);
            lemma_alloc_entries_plan(b, es.drop_last(), snap, ns);
            lemma_entry_children(ns, seq!['/'], e);
            lemma_alloc_children_plan(b0, path, e.children@, snap, ns);
            lemma_top_dir_step(b1, b2, path, ns);
        } else {
            lemma_alloc_file_grows(b0, e, snap);
            lemma_alloc_entries_plan(b, es.drop_last(), snap, ns);
            lemma_alloc_file_plan(b0, e, snap, ns);
            lemma_plan_same(alloc_file(b0, e, snap).0, b2, ns);
        }
    }
}

/// The volume of the controlled tree `es`, on a disk of at least `min_total`
/// bytes, fits: its clusters stay within 32 bits and its FAT fits in memory.
pub open spec fn volume_fits(es: Seq<ControlledEntry>, snap: PolicySnapshot, min_total: u64) -> bool {
    let b = tree_builder(es, snap);
    !(b.next > u32::MAX || gen_plan(b).allocated + 2 > u32::MAX || gen_layout(b, min_total).fat_length_sectors * 512
        > usize::MAX)
}

/// The directories of the volume generated from `es`, root first.
pub open spec fn volume_dirs(es: Seq<ControlledEntry>, snap: PolicySnapshot) -> Seq<(Seq<char>, Seq<u32>)> {
    let b = tree_builder(es, snap);
    seq![(seq!['/'], seq![2u32] + contig(b.next, gen_plan(b).root_needed - 1))] + b.dirs
}

/// For a controlled tree whose every entry has its node in `ns` and whose
/// volume fits in 32-bit clusters, the generated volume gives every directory
/// and every file clusters of its own inside the disk.
pub proof fn lemma_volume_plan(es: Seq<ControlledEntry>, snap: PolicySnapshot, ns: Seq<NodeView>, min_total: u64)
    requires
        forest_found(ns, seq!['/'], es),
        find_path(ns, seq!['/']) is Some,
        tree_builder(es, snap).next <= u32::MAX,
        gen_plan(tree_builder(es, snap)).allocated + 2 <= u32::MAX,
    ensures
        ({
            let b = tree_builder(es, snap);
            let c = gen_layout(b, min_total).cluster_count;
            &&& dirs_apart(volume_dirs(es, snap), b.maps, 2, c + 2, ns)
            &&& files_inside(b.maps, 4, c + 2, ns)
            &&& volume_dirs(es, snap)[0].0 == seq!['/']
            &&& c + 2 <= u32::MAX
        }),
{
    let b0 = metadata_builder();
    assert(plan_ok(b0, ns)) by {
        reveal(plan_ok);
    }
    lemma_alloc_entries_plan(b0, es, snap, ns);
    reveal(plan_ok);
    let b = tree_builder(es, snap);
    let p = gen_plan(b);
    let layout = gen_layout(b, min_total);
    let c = layout.cluster_count;
    assert(p.root_needed >= 1);
    assert(c >= p.allocated);
    let rc = seq![2u32] + contig(b.next, p.root_needed - 1);
    let d = volume_dirs(es, snap);
    assert(d[0] == (seq!['/'], rc));
    assert forall|j: int| 1 <= j < rc.len() implies #[trigger] rc[j] == b.next + j - 1 by {
        assert(b.next + j - 1 <= u32::MAX);
    }
    assert forall|k: int| 1 <= k < d.len() implies #[trigger] d[k] == b.dirs[k - 1] by {}
    assert forall|k: int, j: int| 0 <= k < d.len() && 0 <= j < d[k].1.len() implies 2 <= #[trigger] d[k].1[j] < c + 2 by {
        if k > 0 {
            assert(d[k] == b.dirs[k - 1]);
        }
    }
    assert forall|k1: int, j1: int, k2: int, j2: int|
        0 <= k1 < k2 < d.len() && 0 <= j1 < d[k1].1.len() && 0 <= j2 < d[k2].1.len() implies #[trigger] d[k1].1[j1]
        != #[trigger] d[k2].1[j2] by {
        assert(d[k2] == b.dirs[k2 - 1]);
        if k1 > 0 {
            assert(d[k1] == b.dirs[k1 - 1]);
        }
    }
    assert forall|k: int, j: int, q: int|
        0 <= k < d.len() && 0 <= j < d[k].1.len() && 0 <= q < b.maps.len() implies !in_file(
        #[trigger] b.maps[q],
        #[trigger] d[k].1[j] as int,
    ) by {
        if k > 0 {
            assert(d[k] == b.dirs[k - 1]);
        }
    }
    assert forall|k: int| 0 <= k < d.len() implies find_path(ns, (#[trigger] d[k]).0) is Some by {
        if k > 0 {
            assert(d[k] == b.dirs[k - 1]);
        }
    }
}

} // verus!
