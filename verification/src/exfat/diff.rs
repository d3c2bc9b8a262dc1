//! Mutations that turn one snapshot of a directory into another.
use vstd::prelude::*;
use crate::error::IoError;
use crate::exfat::dir_snapshot::{find_name_from, has_name, lemma_find_name_from, DirectorySnapshot};
use crate::exfat::directory_parser::{entries_view, EntryView, ParsedDirectoryEntry};
use crate::strings::{join_virtual_path, join_virtual_path_spec};
use vstd::string::StringExecFns;
use crate::vfs::mutation::{mutations_view, patches_view, chain_view, ChainView, ClusterChain, FileDataPatch,
    FsMutation, MutationView, NodeKind};

verus! {

broadcast use vstd::std_specs::vec::group_vec_axioms;

/// An entry keeps its identity across a rename: same kind, same slot, same
/// (allocated) first cluster.
pub open spec fn same_entry_identity(a: EntryView, b: EntryView) -> bool {
    a.is_dir == b.is_dir && a.entry_offset == b.entry_offset && a.first_cluster != 0 && a.first_cluster
        == b.first_cluster
}

/// The kind of node an entry describes.
pub open spec fn entry_kind_spec(e: EntryView) -> NodeKind {
    if e.is_dir {
        NodeKind::Directory
    } else {
        NodeKind::File
    }
}

/// The number of clusters an entry of `len` bytes is taken to span (at least
/// one), as a 32-bit count.
pub open spec fn chain_count(len: u64) -> nat {
    let c: int = if len == 0 {
        1
    } else {
        (len + 4095) / 4096
    };
    (c % 0x1_0000_0000) as nat
}

/// The contiguous cluster chain an entry is taken to occupy (cluster numbers
/// wrap at 32 bits).
pub open spec fn entry_chain(e: EntryView) -> Option<ChainView> {
    if e.first_cluster == 0 {
        None
    } else {
        Some(
            ChainView {
                first_cluster: e.first_cluster,
                clusters: Seq::new(
                    chain_count(e.data_length),
                    |k: int| ((e.first_cluster + k) % 0x1_0000_0000) as u32,
                ),
            },
        )
    }
}

/// The first entry of `news`, from index `j` on, that the vanished entry `o`
/// was renamed to.
pub open spec fn rename_target_from(o: EntryView, news: Seq<EntryView>, olds: Seq<EntryView>, j: int) -> Option<
    int,
>
    decreases news.len() - j,
{
    if j < 0 || j >= news.len() {
        None
    } else if !has_name(olds, news[j].name) && same_entry_identity(o, news[j]) {
        Some(j)
    } else {
        rename_target_from(o, news, olds, j + 1)
    }
}

/// The mutations of a rename of `o` to `n` below `parent`.
pub open spec fn rename_mutations(parent: Seq<char>, o: EntryView, n: EntryView) -> Seq<MutationView> {
    seq![MutationView::Rename {
        from: join_virtual_path_spec(parent, o.name),
        to: join_virtual_path_spec(parent, n.name),
        kind: entry_kind_spec(o),
    }] + if !n.is_dir && o.data_length != n.data_length {
        seq![MutationView::Truncate { virtual_path: join_virtual_path_spec(parent, n.name), len: n.data_length }]
    } else {
        seq![]
    }
}

/// Renames found for the old entries `pre` (a prefix of `olds`): the mutations,
/// then the offsets of the renamed old and new entries.
pub open spec fn diff_phase1(parent: Seq<char>, pre: Seq<EntryView>, olds: Seq<EntryView>, news: Seq<EntryView>) -> (
    Seq<MutationView>,
    Seq<int>,
    Seq<int>,
)
    decreases pre.len(),
{
    if pre.len() == 0 {
        (seq![], seq![], seq![])
    } else {
        let (m, ro, rn) = diff_phase1(parent, pre.drop_last(), olds, news);
        let o = pre.last();
        if has_name(news, o.name) {
            (m, ro, rn)
        } else {
            match rename_target_from(o, news, olds, 0) {
                None => (m, ro, rn),
                Some(j) => (m + rename_mutations(parent, o, news[j]), ro.push(o.entry_offset), rn.push(
                    news[j].entry_offset,
                )),
            }
        }
    }
}

/// Mutations for a new entry `n`: a rewrite or truncation of a file present in
/// both snapshots, a creation of an entry that is new and was not renamed.
pub open spec fn diff_step2(parent: Seq<char>, n: EntryView, olds: Seq<EntryView>, rn: Seq<int>) -> Seq<
    MutationView,
> {
    let path = join_virtual_path_spec(parent, n.name);
    let changed = match find_name_from(olds, n.name, 0) {
        Some(i) => if !n.is_dir && !olds[i].is_dir {
            if olds[i].first_cluster != n.first_cluster {
                seq![MutationView::RewriteFile {
                    virtual_path: path,
                    size: n.data_length,
                    valid_data_len: n.valid_data_length,
                    chain: entry_chain(n),
                    data_patches: seq![],
                }]
            } else if olds[i].data_length != n.data_length {
                seq![MutationView::Truncate { virtual_path: path, len: n.data_length }]
            } else {
                seq![]
            }
        } else {
            seq![]
        },
        None => seq![],
    };
    let created = if rn.contains(n.entry_offset) || has_name(olds, n.name) {
        seq![]
    } else if n.is_dir {
        seq![MutationView::CreateDir { parent, name: n.name, chain: entry_chain(n) }]
    } else {
        seq![MutationView::CreateFile {
            parent,
            name: n.name,
            size: n.data_length,
            valid_data_len: n.valid_data_length,
            chain: entry_chain(n),
            data_patches: seq![],
        }]
    };
    changed + created
}

/// The mutations of `diff_step2` for the new entries `pre`, in order.
pub open spec fn diff_phase2(parent: Seq<char>, pre: Seq<EntryView>, olds: Seq<EntryView>, rn: Seq<int>) -> Seq<
    MutationView,
>
    decreases pre.len(),
{
    if pre.len() == 0 {
        seq![]
    } else {
        diff_phase2(parent, pre.drop_last(), olds, rn) + diff_step2(parent, pre.last(), olds, rn)
    }
}

/// Deletions of the old entries `pre` that vanished and were not renamed.
pub open spec fn diff_phase3(parent: Seq<char>, pre: Seq<EntryView>, news: Seq<EntryView>, ro: Seq<int>) -> Seq<
    MutationView,
>
    decreases pre.len(),
{
    if pre.len() == 0 {
        seq![]
    } else {
        let o = pre.last();
        diff_phase3(parent, pre.drop_last(), news, ro) + if !ro.contains(o.entry_offset) && !has_name(news, o.name) {
            seq![MutationView::Delete { virtual_path: join_virtual_path_spec(parent, o.name), kind: entry_kind_spec(o) }]
        } else {
            seq![]
        }
    }
}

/// The mutations that turn the entries `olds` of the directory `parent` into
/// `news`: renames, then changes and creations, then deletions.
pub open spec fn spec_diff(parent: Seq<char>, olds: Seq<EntryView>, news: Seq<EntryView>) -> Seq<MutationView> {
    let (m1, ro, rn) = diff_phase1(parent, olds, olds, news);
    m1 + diff_phase2(parent, news, olds, rn) + diff_phase3(parent, olds, news, ro)
}

/// The offsets held in `v`, as integers.
pub open spec fn offsets_view(v: Seq<usize>) -> Seq<int> {
    v.map_values(|x: usize| x as int)
}

fn entry_kind(e: &ParsedDirectoryEntry) -> (k: NodeKind)
    ensures
        k == entry_kind_spec(e@),
{
    if e.is_dir {
        NodeKind::Directory
    } else {
        NodeKind::File
    }
}

fn same_identity(a: &ParsedDirectoryEntry, b: &ParsedDirectoryEntry) -> (r: bool)
    ensures
        r == same_entry_identity(a@, b@),
{
    a.is_dir == b.is_dir && a.entry_offset == b.entry_offset && a.first_cluster != 0 && a.first_cluster
        == b.first_cluster
}

/// The contiguous chain an entry is taken to occupy.
fn cluster_chain_from_entry(e: &ParsedDirectoryEntry) -> (r: Option<ClusterChain>)
    ensures
        chain_view(r) == entry_chain(e@),
{
    if e.first_cluster == 0 {
        return None;
    }
    let c: u64 = if e.data_length == 0 {
        1
    } else {
        e.data_length / 4096 + if e.data_length % 4096 == 0 {
            0
        } else {
            1
        }
    };
    assert(c == (if e.data_length == 0 {
        1
    } else {
        (e.data_length + 4095) / 4096
    }));
    let count: u64 = c % 0x1_0000_0000;
    let mut clusters: Vec<u32> = Vec::new();
    let mut k: u64 = 0;
    while k < count
        invariant
            k <= count,
            count == chain_count(e.data_length),
            clusters@.len() == k,
            forall|m: int| 0 <= m < k ==> #[trigger] clusters@[m] == ((e.first_cluster + m) % 0x1_0000_0000) as u32,
        decreases count - k,
    {
        clusters.push(((e.first_cluster as u64 + k) % 0x1_0000_0000) as u32);
        k = k + 1;
    }
    let r = Some(ClusterChain { first_cluster: e.first_cluster, clusters });
    assert(chain_view(r)->0.clusters =~= entry_chain(e@)->0.clusters);
    r
}

/// Whether `v` holds `off`.
fn contains_offset(v: &Vec<usize>, off: usize) -> (r: bool)
    ensures
        r == offsets_view(v@).contains(off as int),
{
    let mut i: usize = 0;
    while i < v.len()
        invariant
            i <= v@.len(),
            forall|k: int| 0 <= k < i ==> v@[k] != off,
        decreases v@.len() - i,
    {
        if v[i] == off {
            assert(offsets_view(v@)[i as int] == off as int);
            return true;
        }
        i = i + 1;
    }
    proof {
        if offsets_view(v@).contains(off as int) {
            let k = choose|k: int| 0 <= k < offsets_view(v@).len() && offsets_view(v@)[k] == off as int;
            assert(v@[k] == off);
        }
    }
    false
}

/// The index of the new entry the vanished old entry `o` was renamed to.
fn find_rename_target(o: &ParsedDirectoryEntry, news: &[ParsedDirectoryEntry], old: &DirectorySnapshot) -> (r:
    Option<usize>)
    ensures
        match r {
            Some(j) => j < news@.len() && rename_target_from(o@, entries_view(news@), old.spec_entries(), 0) == Some(
                j as int,
            ),
            None => rename_target_from(o@, entries_view(news@), old.spec_entries(), 0) is None,
        },
{
    let ghost nv = entries_view(news@);
    let mut j: usize = 0;
    while j < news.len()
        invariant
            j <= news@.len(),
            nv == entries_view(news@),
            rename_target_from(o@, nv, old.spec_entries(), 0) == rename_target_from(o@, nv, old.spec_entries(), j as int),
        decreases news@.len() - j,
    {
        assert(nv[j as int] == news@[j as int]@);
        let n = &news[j];
        if old.get_by_name(n.name.as_str()).is_none() && same_identity(o, n) {
            return Some(j);
        }
        j = j + 1;
    }
    None
}

/// The mutations that turn the directory snapshot `old` into `new`: renames of
/// entries that kept their slot and cluster, rewrites and truncations of files
/// present in both, creations of new entries, deletions of vanished ones.
pub fn diff_directory_snapshots(old: &DirectorySnapshot, new: &DirectorySnapshot) -> (r: Result<
    Vec<FsMutation>,
    IoError,
>)
    ensures
        r matches Ok(m) && mutations_view(m@) == spec_diff(old.spec_path(), old.spec_entries(), new.spec_entries()),
{
    let parent = old.path();
    let olds = old.entries();
    let news = new.entries();
    let ghost ov = old.spec_entries();
    let ghost nv = new.spec_entries();
    let ghost pv = old.spec_path();
    let mut muts: Vec<FsMutation> = Vec::new();
    let mut ro: Vec<usize> = Vec::new();
    let mut rn: Vec<usize> = Vec::new();

    let mut i: usize = 0;
    assert(ov.take(0) =~= Seq::<EntryView>::empty());
    while i < olds.len()
        invariant
            i <= olds@.len(),
            ov == entries_view(olds@),
            nv == entries_view(news@),
            ov == old.spec_entries(),
            nv == new.spec_entries(),
            pv == parent@,
            mutations_view(muts@) == diff_phase1(pv, ov.take(i as int), ov, nv).0,
            offsets_view(ro@) == diff_phase1(pv, ov.take(i as int), ov, nv).1,
            offsets_view(rn@) == diff_phase1(pv, ov.take(i as int), ov, nv).2,
        decreases olds@.len() - i,
    {
        let o = &olds[i];
        assert(ov[i as int] == o@);
        assert(ov.take(i + 1).drop_last() =~= ov.take(i as int));
        assert(ov.take(i + 1).last() == o@);
        if new.get_by_name(o.name.as_str()).is_none() {
            match find_rename_target(o, news, old) {
                Some(j) => {
                    let n = &news[j];
                    assert(nv[j as int] == n@);
                    let ghost before = mutations_view(muts@);
                    let from = join_virtual_path(parent, o.name.as_str());
                    let to = join_virtual_path(parent, n.name.as_str());
                    muts.push(FsMutation::Rename { from, to, kind: entry_kind(o) });
                    if !n.is_dir && o.data_length != n.data_length {
                        let p = join_virtual_path(parent, n.name.as_str());
                        muts.push(FsMutation::Truncate { virtual_path: p, len: n.data_length });
                    }
                    assert(mutations_view(muts@) =~= before + rename_mutations(pv, o@, n@));
                    ro.push(o.entry_offset);
                    rn.push(n.entry_offset);
                    assert(offsets_view(ro@) =~= diff_phase1(pv, ov.take(i as int), ov, nv).1.push(o@.entry_offset));
                    assert(offsets_view(rn@) =~= diff_phase1(pv, ov.take(i as int), ov, nv).2.push(n@.entry_offset));
                },
                None => {},
            }
        }
        i = i + 1;
    }
    assert(ov.take(olds@.len() as int) =~= ov);
    let ghost m1 = mutations_view(muts@);
    let ghost rov = offsets_view(ro@);
    let ghost rnv = offsets_view(rn@);

    let mut i: usize = 0;
    assert(m1 + diff_phase2(pv, nv.take(0), ov, rnv) =~= m1);
    while i < news.len()
        invariant
            i <= news@.len(),
            ov == entries_view(olds@),
            nv == entries_view(news@),
            ov == old.spec_entries(),
            nv == new.spec_entries(),
            pv == parent@,
            rnv == offsets_view(rn@),
            mutations_view(muts@) == m1 + diff_phase2(pv, nv.take(i as int), ov, rnv),
        decreases news@.len() - i,
    {
        let n = &news[i];
        assert(nv[i as int] == n@);
        assert(nv.take(i + 1).drop_last() =~= nv.take(i as int));
        assert(nv.take(i + 1).last() == n@);
        let ghost before = mutations_view(muts@);
        proof {
            lemma_find_name_from(ov, n@.name, 0);
        }
        let found = old.get_by_name(n.name.as_str());
        let ghost mid_start = mutations_view(muts@);
        match found {
            Some(oe) => {
                if !n.is_dir && !oe.is_dir {
                    let path = join_virtual_path(parent, n.name.as_str());
                    if oe.first_cluster != n.first_cluster {
                        muts.push(FsMutation::RewriteFile {
                            virtual_path: path,
                            size: n.data_length,
                            valid_data_len: n.valid_data_length,
                            chain: cluster_chain_from_entry(n),
                            data_patches: Vec::new(),
                        });
                        assert(patches_view(Seq::<FileDataPatch>::empty()) =~= Seq::<crate::vfs::mutation::PatchView>::empty());
                    } else if oe.data_length != n.data_length {
                        muts.push(FsMutation::Truncate { virtual_path: path, len: n.data_length });
                    }
                }
            },
            None => {},
        }
        let ghost after_changed = mutations_view(muts@);
        let renamed = contains_offset(&rn, n.entry_offset);
        if !renamed && found.is_none() {
            if n.is_dir {
                muts.push(FsMutation::CreateDir {
                    parent: String::from_str(parent),
                    name: n.name.clone(),
                    chain: cluster_chain_from_entry(n),
                });
            } else {
                muts.push(FsMutation::CreateFile {
                    parent: String::from_str(parent),
                    name: n.name.clone(),
                    size: n.data_length,
                    valid_data_len: n.valid_data_length,
                    chain: cluster_chain_from_entry(n),
                    data_patches: Vec::new(),
                });
                assert(patches_view(Seq::<FileDataPatch>::empty()) =~= Seq::<crate::vfs::mutation::PatchView>::empty());
            }
        }
        assert(mutations_view(muts@) =~= before + diff_step2(pv, n@, ov, rnv));
        i = i + 1;
    }
    assert(nv.take(news@.len() as int) =~= nv);
    let ghost m2 = mutations_view(muts@);

    let mut i: usize = 0;
    assert(m2 + diff_phase3(pv, ov.take(0), nv, rov) =~= m2);
    while i < olds.len()
        invariant
            i <= olds@.len(),
            ov == entries_view(olds@),
            nv == entries_view(news@),
            ov == old.spec_entries(),
            nv == new.spec_entries(),
            pv == parent@,
            rov == offsets_view(ro@),
            mutations_view(muts@) == m2 + diff_phase3(pv, ov.take(i as int), nv, rov),
        decreases olds@.len() - i,
    {
        let o = &olds[i];
        assert(ov[i as int] == o@);
        assert(ov.take(i + 1).drop_last() =~= ov.take(i as int));
        assert(ov.take(i + 1).last() == o@);
        let ghost before = mutations_view(muts@);
        if !contains_offset(&ro, o.entry_offset) && new.get_by_name(o.name.as_str()).is_none() {
            muts.push(FsMutation::Delete { virtual_path: join_virtual_path(parent, o.name.as_str()), kind: entry_kind(o) });
        }
        assert(mutations_view(muts@) =~= before + (if !rov.contains(o@.entry_offset) && !has_name(nv, o@.name) {
            seq![MutationView::Delete { virtual_path: join_virtual_path_spec(pv, o@.name), kind: entry_kind_spec(o@) }]
        } else {
            seq![]
        }));
        i = i + 1;
    }
    assert(ov.take(olds@.len() as int) =~= ov);
    Ok(muts)
}

/// Comparing a directory with itself finds no mutation.
pub proof fn lemma_diff_unchanged(parent: Seq<char>, s: Seq<EntryView>)
    requires
        forall|a: int, b: int| 0 <= a < b < s.len() ==> s[a].name != s[b].name,
    ensures
        spec_diff(parent, s, s) == Seq::<MutationView>::empty(),
{
    lemma_diff_unchanged_prefix(parent, s, s.len() as int);
    assert(s.take(s.len() as int) =~= s);
}

proof fn lemma_diff_unchanged_prefix(parent: Seq<char>, s: Seq<EntryView>, k: int)
    requires
        0 <= k <= s.len(),
        forall|a: int, b: int| 0 <= a < b < s.len() ==> s[a].name != s[b].name,
    ensures
        diff_phase1(parent, s.take(k), s, s) == (Seq::<MutationView>::empty(), Seq::<int>::empty(), Seq::<int>::empty()),
        diff_phase2(parent, s.take(k), s, Seq::<int>::empty()) == Seq::<MutationView>::empty(),
        diff_phase3(parent, s.take(k), s, Seq::<int>::empty()) == Seq::<MutationView>::empty(),
    decreases k,
{
    if k > 0 {
        lemma_diff_unchanged_prefix(parent, s, k - 1);
        let pre = s.take(k);
        assert(pre.drop_last() =~= s.take(k - 1));
        let e = s[k - 1];
        assert(pre.last() == e);
        assert(has_name(s, e.name)) by {
            assert(s[k - 1].name == e.name);
        }
        lemma_find_name_from(s, e.name, 0);
        let i = find_name_from(s, e.name, 0)->0;
        assert(i == k - 1) by {
            if i < k - 1 {
                assert(s[i].name != s[k - 1].name);
            }
            if i > k - 1 {
                assert(s[k - 1].name != s[k - 1].name);
            }
        }
        assert(!Seq::<int>::empty().contains(e.entry_offset));
        assert(diff_step2(parent, e, s, Seq::<int>::empty()) =~= Seq::<MutationView>::empty());
    }
}

/// A mutation made for one new entry is among those made for all of them.
proof fn lemma_phase2_holds(parent: Seq<char>, pre: Seq<EntryView>, olds: Seq<EntryView>, rn: Seq<int>, k: int, t: MutationView)
    requires
        0 <= k < pre.len(),
        diff_step2(parent, pre[k], olds, rn).contains(t),
    ensures
        diff_phase2(parent, pre, olds, rn).contains(t),
    decreases pre.len(),
{
    let a = diff_phase2(parent, pre.drop_last(), olds, rn);
    let b = diff_step2(parent, pre.last(), olds, rn);
    assert(diff_phase2(parent, pre, olds, rn) == a + b);
    if k == pre.len() - 1 {
        let j = choose|j: int| 0 <= j < b.len() && b[j] == t;
        assert((a + b)[a.len() + j] == t);
    } else {
        assert(pre.drop_last()[k] == pre[k]);
        lemma_phase2_holds(parent, pre.drop_last(), olds, rn, k, t);
        let j = choose|j: int| 0 <= j < a.len() && a[j] == t;
        assert((a + b)[j] == t);
    }
}

/// A file that both snapshots hold under the same name (the first old entry
/// with that name) and at the same first cluster is truncated to its new
/// length exactly when its length changed, grown or shrunk: the mutations made
/// for it are that one truncation, or none; and the diff then holds it.
pub proof fn lemma_diff_truncates_resized_file(
    parent: Seq<char>,
    olds: Seq<EntryView>,
    news: Seq<EntryView>,
    rn: Seq<int>,
    i: int,
    k: int,
)
    requires
        0 <= i < olds.len(),
        0 <= k < news.len(),
        olds[i].name == news[k].name,
        forall|j: int| 0 <= j < i ==> (#[trigger] olds[j]).name != news[k].name,
        !olds[i].is_dir,
        !news[k].is_dir,
        olds[i].first_cluster == news[k].first_cluster,
    ensures
        diff_step2(parent, news[k], olds, rn) == if olds[i].data_length != news[k].data_length {
            seq![MutationView::Truncate { virtual_path: join_virtual_path_spec(parent, news[k].name), len: news[k].data_length }]
        } else {
            Seq::<MutationView>::empty()
        },
        olds[i].data_length != news[k].data_length ==> spec_diff(parent, olds, news).contains(
            MutationView::Truncate { virtual_path: join_virtual_path_spec(parent, news[k].name), len: news[k].data_length },
        ),
{
    let n = news[k];
    lemma_find_name_from(olds, n.name, 0);
    assert(find_name_from(olds, n.name, 0) == Some(i)) by {
        let f = find_name_from(olds, n.name, 0);
        if f != Some(i) {
            match f {
                Some(x) => {
                    if x < i {
                        assert(olds[x].name != n.name);
                    } else {
                        assert(olds[i].name != n.name);
                    }
                },
                None => {
                    assert(olds[i].name != n.name);
                },
            }
        }
    }
    assert(has_name(olds, n.name));
    let step = diff_step2(parent, n, olds, rn);
    assert(step =~= if olds[i].data_length != n.data_length {
        seq![MutationView::Truncate { virtual_path: join_virtual_path_spec(parent, n.name), len: n.data_length }]
    } else {
        Seq::<MutationView>::empty()
    });
    if olds[i].data_length != n.data_length {
        let t = MutationView::Truncate { virtual_path: join_virtual_path_spec(parent, n.name), len: n.data_length };
        let (m1, ro, rn1) = diff_phase1(parent, olds, olds, news);
        assert(diff_step2(parent, n, olds, rn1)[0] == t);
        lemma_phase2_holds(parent, news, olds, rn1, k, t);
        let p2 = diff_phase2(parent, news, olds, rn1);
        let p3 = diff_phase3(parent, olds, news, ro);
        let j = choose|j: int| 0 <= j < p2.len() && p2[j] == t;
        assert((m1 + p2 + p3)[m1.len() + j] == t);
    }
}

/// A file that both snapshots hold under the same name (the first old entry
/// with that name) at different first clusters is rewritten: the mutations
/// made for it are one rewrite to its new size, valid length and chain, and
/// the diff holds it.
pub proof fn lemma_diff_rewrites_moved_file(
    parent: Seq<char>,
    olds: Seq<EntryView>,
    news: Seq<EntryView>,
    rn: Seq<int>,
    i: int,
    k: int,
)
    requires
        0 <= i < olds.len(),
        0 <= k < news.len(),
        olds[i].name == news[k].name,
        forall|j: int| 0 <= j < i ==> (#[trigger] olds[j]).name != news[k].name,
        !olds[i].is_dir,
        !news[k].is_dir,
        olds[i].first_cluster != news[k].first_cluster,
    ensures
        ({
            let t = MutationView::RewriteFile {
                virtual_path: join_virtual_path_spec(parent, news[k].name),
                size: news[k].data_length,
                valid_data_len: news[k].valid_data_length,
                chain: entry_chain(news[k]),
                data_patches: seq![],
            };
            &&& diff_step2(parent, news[k], olds, rn) == seq![t]
            &&& spec_diff(parent, olds, news).contains(t)
        }),
{
    let n = news[k];
    lemma_find_name_from(olds, n.name, 0);
    assert(find_name_from(olds, n.name, 0) == Some(i)) by {
        let f = find_name_from(olds, n.name, 0);
        if f != Some(i) {
            match f {
                Some(x) => {
                    if x < i {
                        assert(olds[x].name != n.name);
                    } else {
                        assert(olds[i].name != n.name);
                    }
                },
                None => {
                    assert(olds[i].name != n.name);
                },
            }
        }
    }
    assert(has_name(olds, n.name));
    let t = MutationView::RewriteFile {
        virtual_path: join_virtual_path_spec(parent, n.name),
        size: n.data_length,
        valid_data_len: n.valid_data_length,
        chain: entry_chain(n),
        data_patches: seq![],
    };
    assert(diff_step2(parent, n, olds, rn) =~= seq![t]);
    let (m1, ro, rn1) = diff_phase1(parent, olds, olds, news);
    assert(diff_step2(parent, n, olds, rn1) =~= seq![t]);
    assert(diff_step2(parent, n, olds, rn1)[0] == t);
    lemma_phase2_holds(parent, news, olds, rn1, k, t);
    let p2 = diff_phase2(parent, news, olds, rn1);
    let p3 = diff_phase3(parent, olds, news, ro);
    let j = choose|j: int| 0 <= j < p2.len() && p2[j] == t;
    assert((m1 + p2 + p3)[m1.len() + j] == t);
}

} // verus!
