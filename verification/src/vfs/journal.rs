//! The write journal: file system mutations recorded for the real disk, and
//! the files they leave to be synced.
use vstd::prelude::*;
use crate::strings::{
    is_same_path_or_child, is_same_path_or_child_spec, remap_path_prefix, remap_path_prefix_spec, str_eq,
};
use vstd::string::StringExecFns;
use crate::exfat::transaction_resolver::{seq_lt, str_lt};

verus! {

broadcast use vstd::std_specs::vec::group_vec_axioms;

/// A mutation of the real file system.
#[derive(Debug)]
pub enum FileMutation {
    CreateFile { virtual_path: String },
    CreateDir { virtual_path: String },
    Write { virtual_path: String, offset: u64, data: Vec<u8> },
    Truncate { virtual_path: String, len: u64 },
    Rename { from: String, to: String },
    DeleteFile { virtual_path: String },
    DeleteDir { virtual_path: String },
}

/// What a flush of the journal does next.
#[derive(Debug, PartialEq, Eq, Structural)]
pub enum FlushAction {
    /// Apply the recorded mutation at this index.
    Apply(usize),
    /// Sync the listed file at this index.
    Sync(usize),
    /// Sync the mount root.
    SyncMountRoot,
    /// Every step succeeded; the journal is empty.
    Done,
    /// A step failed; the journal is kept.
    Stop,
}

/// Mutations recorded for the real file system, in order.
#[derive(Debug)]
pub struct WriteJournal {
    mutations: Vec<FileMutation>,
}

/// The files left to sync after the mutations `ms`: each created, written or
/// truncated file, carried along renames, dropped by deletes.
pub open spec fn sync_paths(ms: Seq<FileMutation>) -> Set<Seq<char>>
    decreases ms.len(),
{
    if ms.len() == 0 {
        Set::empty()
    } else {
        let s = sync_paths(ms.drop_last());
        match ms.last() {
            FileMutation::CreateFile { virtual_path } => s.insert(virtual_path@),
            FileMutation::Write { virtual_path, .. } => s.insert(virtual_path@),
            FileMutation::Truncate { virtual_path, .. } => s.insert(virtual_path@),
            FileMutation::Rename { from, to } => s.map(|p: Seq<char>| remap_path_prefix_spec(p, from@, to@)).insert(to@),
            FileMutation::DeleteFile { virtual_path } => s.remove(virtual_path@),
            FileMutation::DeleteDir { virtual_path } => s.filter(|p: Seq<char>| !is_same_path_or_child_spec(p, virtual_path@)),
            FileMutation::CreateDir { .. } => s,
        }
    }
}

/// The views of a list of paths.
pub open spec fn paths_view(v: Seq<String>) -> Seq<Seq<char>> {
    v.map_values(|p: String| p@)
}

/// A list of paths without repeats.
pub open spec fn no_repeats(v: Seq<Seq<char>>) -> bool {
    forall|i: int, j: int| 0 <= i < j < v.len() ==> v[i] != v[j]
}

/// Whether `v` holds `p`.
fn holds(v: &Vec<String>, p: &str) -> (r: bool)
    ensures
        r == paths_view(v@).contains(p@),
{
    let ghost pv = paths_view(v@);
    let mut i: usize = 0;
    while i < v.len()
        invariant
            i <= v@.len(),
            pv == paths_view(v@),
            forall|k: int| 0 <= k < i ==> pv[k] != p@,
        decreases v@.len() - i,
    {
        if str_eq(v[i].as_str(), p) {
            assert(pv[i as int] == p@);
            return true;
        }
        i = i + 1;
    }
    false
}

/// Adds `p` to the path set `v`.
fn add_path(v: &mut Vec<String>, p: &str)
    requires
        no_repeats(paths_view(old(v)@)),
    ensures
        no_repeats(paths_view(final(v)@)),
        paths_view(final(v)@).to_set() == paths_view(old(v)@).to_set().insert(p@),
{
    let ghost before = paths_view(v@);
    if !holds(v, p) {
        v.push(String::from_str(p));
        assert(paths_view(v@) =~= before.push(p@));
        assert(paths_view(v@).to_set() =~= before.to_set().insert(p@)) by {
            assert forall|x: Seq<char>| paths_view(v@).to_set().contains(x) <==> before.to_set().insert(p@).contains(x) by {
                if x == p@ {
                    assert(paths_view(v@)[before.len() as int] == x);
                }
                if before.contains(x) {
                    let k = choose|k: int| 0 <= k < before.len() && before[k] == x;
                    assert(paths_view(v@)[k] == x);
                }
                if paths_view(v@).contains(x) && x != p@ {
                    let k = choose|k: int| 0 <= k < paths_view(v@).len() && paths_view(v@)[k] == x;
                    assert(before[k] == x);
                }
            }
        }
    } else {
        assert(before.to_set() =~= before.to_set().insert(p@));
    }
}

/// The paths of `v` for which `keep` holds, in order.
fn retain_paths(v: Vec<String>, drop: &str, subtree: bool) -> (r: Vec<String>)
    requires
        no_repeats(paths_view(v@)),
    ensures
        no_repeats(paths_view(r@)),
        paths_view(r@).to_set() == (if subtree {
            paths_view(v@).to_set().filter(|p: Seq<char>| !is_same_path_or_child_spec(p, drop@))
        } else {
            paths_view(v@).to_set().remove(drop@)
        }),
{
    let ghost pv = paths_view(v@);
    let ghost keep = |p: Seq<char>| if subtree { !is_same_path_or_child_spec(p, drop@) } else { p != drop@ };
    let mut out: Vec<String> = Vec::new();
    let mut i: usize = 0;
    while i < v.len()
        invariant
            i <= v@.len(),
            pv == paths_view(v@),
            no_repeats(pv),
            no_repeats(paths_view(out@)),
            forall|x: Seq<char>| paths_view(out@).contains(x) <==> (exists|k: int| 0 <= k < i && pv[k] == x) && keep(x),
            keep == (|p: Seq<char>| if subtree { !is_same_path_or_child_spec(p, drop@) } else { p != drop@ }),
        decreases v@.len() - i,
    {
        let k = if subtree { !is_same_path_or_child(v[i].as_str(), drop) } else { !str_eq(v[i].as_str(), drop) };
        let ghost before = paths_view(out@);
        assert(pv[i as int] == v@[i as int]@);
        if k {
            out.push(v[i].clone());
            assert(paths_view(out@) =~= before.push(pv[i as int]));
            assert forall|a: int, b: int| 0 <= a < b < paths_view(out@).len() implies paths_view(out@)[a] != paths_view(out@)[b] by {
                if b == before.len() {
                    assert(before.contains(before[a]));
                    let kk = choose|kk: int| 0 <= kk < i && pv[kk] == before[a];
                    assert(pv[kk] != pv[i as int]);
                }
            }
        }
        assert forall|x: Seq<char>| paths_view(out@).contains(x) <==> (exists|kk: int| 0 <= kk < i + 1 && pv[kk] == x) && keep(x) by {
            if paths_view(out@).contains(x) {
                let a = choose|a: int| 0 <= a < paths_view(out@).len() && paths_view(out@)[a] == x;
                if a < before.len() {
                    assert(before[a] == x);
                    assert(before.contains(x));
                } else {
                    assert(pv[i as int] == x);
                }
            }
            if (exists|kk: int| 0 <= kk < i + 1 && pv[kk] == x) && keep(x) {
                let kk = choose|kk: int| 0 <= kk < i + 1 && pv[kk] == x;
                if kk < i {
                    assert(before.contains(x));
                    let a = choose|a: int| 0 <= a < before.len() && before[a] == x;
                    assert(paths_view(out@)[a] == x);
                } else {
                    assert(paths_view(out@)[before.len() as int] == x);
                }
            }
        }
        i = i + 1;
    }
    let ghost target = if subtree {
        pv.to_set().filter(|p: Seq<char>| !is_same_path_or_child_spec(p, drop@))
    } else {
        pv.to_set().remove(drop@)
    };
    assert(paths_view(out@).to_set() =~= target) by {
        assert forall|x: Seq<char>| paths_view(out@).to_set().contains(x) <==> target.contains(x) by {
            if pv.contains(x) {
                let kk = choose|kk: int| 0 <= kk < pv.len() && pv[kk] == x;
                assert(exists|k2: int| 0 <= k2 < v@.len() && pv[k2] == x);
            }
        }
    }
    out
}

/// The path set `v` with every path remapped from `from` to `to`, then `to`
/// added.
fn remap_paths(v: Vec<String>, from: &str, to: &str) -> (r: Vec<String>)
    requires
        no_repeats(paths_view(v@)),
    ensures
        no_repeats(paths_view(r@)),
        paths_view(r@).to_set() == paths_view(v@).to_set().map(|p: Seq<char>| remap_path_prefix_spec(p, from@, to@)).insert(
            to@,
        ),
{
    let ghost pv = paths_view(v@);
    let ghost f = |p: Seq<char>| remap_path_prefix_spec(p, from@, to@);
    let mut out: Vec<String> = Vec::new();
    let mut i: usize = 0;
    while i < v.len()
        invariant
            i <= v@.len(),
            pv == paths_view(v@),
            no_repeats(paths_view(out@)),
            f == (|p: Seq<char>| remap_path_prefix_spec(p, from@, to@)),
            forall|x: Seq<char>| paths_view(out@).contains(x) <==> exists|k: int| 0 <= k < i && f(pv[k]) == x,
        decreases v@.len() - i,
    {
        let y = remap_path_prefix(v[i].as_str(), from, to);
        assert(pv[i as int] == v@[i as int]@);
        let ghost before = paths_view(out@);
        add_path(&mut out, y.as_str());
        assert forall|x: Seq<char>| paths_view(out@).contains(x) <==> exists|k: int| 0 <= k < i + 1 && f(pv[k]) == x by {
            assert(paths_view(out@).to_set().contains(x) == paths_view(out@).contains(x));
            assert(before.to_set().contains(x) == before.contains(x));
            if exists|k: int| 0 <= k < i + 1 && f(pv[k]) == x {
                let k = choose|k: int| 0 <= k < i + 1 && f(pv[k]) == x;
                if k < i {
                    assert(before.contains(x));
                }
            }
        }
        i = i + 1;
    }
    let ghost mid = paths_view(out@);
    add_path(&mut out, to);
    assert(paths_view(out@).to_set() =~= pv.to_set().map(f).insert(to@)) by {
        assert forall|x: Seq<char>| mid.to_set().contains(x) <==> pv.to_set().map(f).contains(x) by {
            assert(mid.to_set().contains(x) == mid.contains(x));
            if mid.contains(x) {
                let k = choose|k: int| 0 <= k < v@.len() && f(pv[k]) == x;
                assert(pv.to_set().contains(pv[k]));
            }
            if pv.to_set().map(f).contains(x) {
                let y = choose|y: Seq<char>| pv.to_set().contains(y) && f(y) == x;
                let k = choose|k: int| 0 <= k < pv.len() && pv[k] == y;
                assert(f(pv[k]) == x);
            }
        }
    }
    out
}

/// Paths in strictly ascending order (by characters, as `String`s compare).
pub open spec fn ascending(v: Seq<Seq<char>>) -> bool {
    forall|i: int, j: int| 0 <= i < j < v.len() ==> seq_lt(#[trigger] v[i], #[trigger] v[j])
}

/// No path is below itself.
proof fn lemma_lt_irrefl(a: Seq<char>)
    ensures
        !seq_lt(a, a),
    decreases a.len(),
{
    if a.len() > 0 {
        lemma_lt_irrefl(a.drop_first());
    }
}

/// The order is transitive.
proof fn lemma_lt_trans(a: Seq<char>, b: Seq<char>, c: Seq<char>)
    requires
        seq_lt(a, b),
        seq_lt(b, c),
    ensures
        seq_lt(a, c),
    decreases a.len(),
{
    if a.len() > 0 && b.len() > 0 && c.len() > 0 && a[0] == b[0] && b[0] == c[0] {
        lemma_lt_trans(a.drop_first(), b.drop_first(), c.drop_first());
    }
}

/// Two different paths are ordered one way or the other.
proof fn lemma_lt_total(a: Seq<char>, b: Seq<char>)
    requires
        a != b,
    ensures
        seq_lt(a, b) || seq_lt(b, a),
    decreases a.len(),
{
    if a.len() > 0 && b.len() > 0 && a[0] == b[0] {
        if a.drop_first() == b.drop_first() {
            assert(a =~= seq![a[0]] + a.drop_first());
            assert(b =~= seq![b[0]] + b.drop_first());
        }
        lemma_lt_total(a.drop_first(), b.drop_first());
    } else if a.len() == 0 && b.len() == 0 {
        assert(a =~= b);
    }
}

/// `paths` in ascending order.
fn sort_paths(paths: Vec<String>) -> (r: Vec<String>)
    requires
        no_repeats(paths_view(paths@)),
    ensures
        ascending(paths_view(r@)),
        paths_view(r@).to_set() == paths_view(paths@).to_set(),
{
    let mut out: Vec<String> = Vec::new();
    let mut i: usize = 0;
    let ghost pv = paths_view(paths@);
    while i < paths.len()
        invariant
            i <= paths@.len(),
            pv == paths_view(paths@),
            no_repeats(pv),
            ascending(paths_view(out@)),
            paths_view(out@).to_set() == pv.take(i as int).to_set(),
        decreases paths@.len() - i,
    {
        let x = paths[i].clone();
        let ghost ov = paths_view(out@);
        assert(!ov.contains(x@)) by {
            if ov.contains(x@) {
                assert(ov.to_set().contains(x@));
                let k = choose|k: int| 0 <= k < i && pv.take(i as int)[k] == x@;
                assert(pv[k] == pv[i as int]);
            }
        }
        let mut p: usize = 0;
        while p < out.len() && str_lt(out[p].as_str(), x.as_str())
            invariant
                p <= out@.len(),
                ov == paths_view(out@),
                forall|k: int| 0 <= k < p ==> seq_lt(#[trigger] ov[k], x@),
            decreases out@.len() - p,
        {
            p = p + 1;
        }
        out.insert(p, x);
        proof {
            let nv = paths_view(out@);
            assert(nv =~= ov.insert(p as int, x@));
            if p < ov.len() {
                assert(!seq_lt(ov[p as int], x@));
                assert(ov[p as int] != x@);
                lemma_lt_total(ov[p as int], x@);
            }
            assert forall|a: int, b: int| 0 <= a < b < nv.len() implies seq_lt(#[trigger] nv[a], #[trigger] nv[b]) by {
                if b < p {
                } else if b == p {
                    assert(nv[a] == ov[a]);
                } else if a == p {
                    if b > p + 1 {
                        lemma_lt_trans(x@, ov[p as int], ov[b - 1]);
                    }
                } else if a < p {
                    assert(nv[a] == ov[a] && nv[b] == ov[b - 1]);
                    if a < b - 1 {
                    }
                } else {
                    assert(nv[a] == ov[a - 1] && nv[b] == ov[b - 1]);
                }
            }
            assert(pv.take(i + 1) =~= pv.take(i as int).push(x@));
            assert(nv.to_set() =~= ov.to_set().insert(x@)) by {
                assert forall|y: Seq<char>| nv.to_set().contains(y) implies ov.to_set().insert(x@).contains(y) by {
                    let k = choose|k: int| 0 <= k < nv.len() && nv[k] == y;
                    if k < p {
                        assert(ov[k] == y);
                    } else if k > p {
                        assert(ov[k - 1] == y);
                    }
                }
                assert forall|y: Seq<char>| ov.to_set().insert(x@).contains(y) implies nv.to_set().contains(y) by {
                    if y == x@ {
                        assert(nv[p as int] == y);
                    } else {
                        let k = choose|k: int| 0 <= k < ov.len() && ov[k] == y;
                        if k < p {
                            assert(nv[k] == y);
                        } else {
                            assert(nv[k + 1] == y);
                        }
                    }
                }
            }
            let tk = pv.take(i as int);
            assert(x@ == pv[i as int]);
            assert forall|y: Seq<char>| tk.push(x@).to_set().contains(y) implies tk.to_set().insert(x@).contains(y) by {
                let k = choose|k: int| 0 <= k < tk.push(x@).len() && tk.push(x@)[k] == y;
                if k < tk.len() {
                    assert(tk[k] == y);
                }
            }
            assert forall|y: Seq<char>| tk.to_set().insert(x@).contains(y) implies tk.push(x@).to_set().contains(y) by {
                if y == x@ {
                    assert(tk.push(x@)[tk.len() as int] == y);
                } else {
                    let k = choose|k: int| 0 <= k < tk.len() && tk[k] == y;
                    assert(tk.push(x@)[k] == y);
                }
            }
            assert(tk.push(x@).to_set() =~= tk.to_set().insert(x@));
        }
        i = i + 1;
    }
    assert(pv.take(pv.len() as int) =~= pv);
    out
}

/// The files left to sync after `ms`.
pub fn sync_file_paths(ms: &Vec<FileMutation>) -> (r: Vec<String>)
    ensures
        no_repeats(paths_view(r@)),
        ascending(paths_view(r@)),
        paths_view(r@).to_set() == sync_paths(ms@),
{
    let mut paths: Vec<String> = Vec::new();
    let mut i: usize = 0;
    assert(ms@.take(0) =~= Seq::<FileMutation>::empty());
    assert(paths_view(paths@).to_set() =~= Set::<Seq<char>>::empty());
    while i < ms.len()
        invariant
            i <= ms@.len(),
            no_repeats(paths_view(paths@)),
            paths_view(paths@).to_set() == sync_paths(ms@.take(i as int)),
        decreases ms@.len() - i,
    {
        assert(ms@.take(i + 1).drop_last() =~= ms@.take(i as int));
        assert(ms@.take(i + 1).last() == ms@[i as int]);
        match &ms[i] {
            FileMutation::CreateFile { virtual_path } => add_path(&mut paths, virtual_path.as_str()),
            FileMutation::Write { virtual_path, .. } => add_path(&mut paths, virtual_path.as_str()),
            FileMutation::Truncate { virtual_path, .. } => add_path(&mut paths, virtual_path.as_str()),
            FileMutation::Rename { from, to } => {
                paths = remap_paths(paths, from.as_str(), to.as_str());
            },
            FileMutation::DeleteFile { virtual_path } => {
                paths = retain_paths(paths, virtual_path.as_str(), false);
            },
            FileMutation::DeleteDir { virtual_path } => {
                paths = retain_paths(paths, virtual_path.as_str(), true);
            },
            FileMutation::CreateDir { .. } => {},
        }
        i = i + 1;
    }
    assert(ms@.take(ms@.len() as int) =~= ms@);
    let sorted = sort_paths(paths);
    proof {
        let v = paths_view(sorted@);
        assert forall|a: int, b: int| 0 <= a < b < v.len() implies v[a] != v[b] by {
            assert(seq_lt(v[a], v[b]));
            if v[a] == v[b] {
                lemma_lt_irrefl(v[a]);
            }
        }
    }
    sorted
}

impl WriteJournal {
    pub closed spec fn view(&self) -> Seq<FileMutation> {
        self.mutations@
    }

    /// An empty journal.
    pub fn new() -> (j: Self)
        ensures
            j@ == Seq::<FileMutation>::empty(),
    {
        WriteJournal { mutations: Vec::new() }
    }

    /// Records `mutation` after the others.
    pub fn record(&mut self, mutation: FileMutation)
        ensures
            final(self)@ == old(self)@.push(mutation),
    {
        self.mutations.push(mutation);
    }

    /// Whether some mutation is recorded.
    pub fn is_dirty(&self) -> (r: bool)
        ensures
            r == (self@.len() > 0),
    {
        self.mutations.len() > 0
    }

    /// The recorded mutations, in order.
    pub fn mutations(&self) -> (r: &[FileMutation])
        ensures
            r@ == self@,
    {
        self.mutations.as_slice()
    }

    /// The files the recorded mutations leave to sync.
    pub fn sync_paths(&self) -> (r: Vec<String>)
        ensures
            no_repeats(paths_view(r@)),
            ascending(paths_view(r@)),
            paths_view(r@).to_set() == sync_paths(self@),
    {
        sync_file_paths(&self.mutations)
    }

    /// One step of flushing the journal to the real file system. `done` steps
    /// have succeeded so far (`last_ok` says whether the step just carried out
    /// succeeded; it is true before the first), and `sync_count` files are
    /// listed to sync. The steps are: apply each recorded mutation in order,
    /// sync each listed file in order, sync the mount root. The first failure
    /// stops the flush and keeps the journal; once every step has succeeded
    /// the journal is emptied.
    pub fn flush_step(&mut self, done: usize, sync_count: usize, last_ok: bool) -> (a: FlushAction)
        ensures
            !last_ok ==> a is Stop && final(self)@ == old(self)@,
            last_ok && done < old(self)@.len() ==> a == FlushAction::Apply(done) && final(self)@ == old(self)@,
            last_ok && old(self)@.len() <= done < old(self)@.len() + sync_count ==> a == FlushAction::Sync(
                (done - old(self)@.len()) as usize,
            ) && final(self)@ == old(self)@,
            last_ok && done == old(self)@.len() + sync_count ==> a is SyncMountRoot && final(self)@ == old(self)@,
            last_ok && done > old(self)@.len() + sync_count ==> a is Done && final(self)@ == Seq::<FileMutation>::empty(),
    {
        if !last_ok {
            return FlushAction::Stop;
        }
        let n = self.mutations.len();
        if done < n {
            FlushAction::Apply(done)
        } else if done - n < sync_count {
            FlushAction::Sync(done - n)
        } else if done - n == sync_count {
            FlushAction::SyncMountRoot
        } else {
            self.mutations.clear();
            FlushAction::Done
        }
    }

    /// Forgets every recorded mutation.
    pub fn discard(&mut self)
        ensures
            final(self)@ == Seq::<FileMutation>::empty(),
    {
        self.mutations.clear();
    }
}

} // verus!
