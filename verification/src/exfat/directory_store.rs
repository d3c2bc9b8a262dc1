//! Runtime directory metadata store: the clusters of every directory.
use vstd::prelude::*;
use crate::strings::{is_same_path_or_child, is_same_path_or_child_spec, remap_path_prefix,
    remap_path_prefix_spec, str_eq};
use crate::vfs::node::NodeId;

verus! {

broadcast use vstd::std_specs::vec::group_vec_axioms;

/// The clusters of one directory.
#[derive(Debug)]
pub struct DirectoryRecord {
    pub node_id: NodeId,
    pub virtual_path: String,
    pub clusters: Vec<u32>,
}

/// Directory records, at most one per path once built by `insert_directory`.
#[derive(Debug)]
pub struct DirectoryStore {
    records: Vec<DirectoryRecord>,
}

/// The records of `s` that do not lie under `path`, in order.
pub open spec fn records_outside(s: Seq<DirectoryRecord>, path: Seq<char>) -> Seq<DirectoryRecord>
    decreases s.len(),
{
    if s.len() == 0 {
        seq![]
    } else if is_same_path_or_child_spec(s.last().virtual_path@, path) {
        records_outside(s.drop_last(), path)
    } else {
        records_outside(s.drop_last(), path).push(s.last())
    }
}

/// The clusters of the records of `s` that lie under `path`, in record order.
pub open spec fn clusters_under(s: Seq<DirectoryRecord>, path: Seq<char>) -> Seq<u32>
    decreases s.len(),
{
    if s.len() == 0 {
        seq![]
    } else if is_same_path_or_child_spec(s.last().virtual_path@, path) {
        clusters_under(s.drop_last(), path) + s.last().clusters@
    } else {
        clusters_under(s.drop_last(), path)
    }
}

/// The index of the first record of `s` whose path is `path`.
pub open spec fn first_with_path(s: Seq<DirectoryRecord>, path: Seq<char>) -> Option<int> {
    if exists|i: int| 0 <= i < s.len() && (#[trigger] s[i]).virtual_path@ == path {
        Some(choose|i: int| 0 <= i < s.len() && (#[trigger] s[i]).virtual_path@ == path && forall|j: int|
            0 <= j < i ==> (#[trigger] s[j]).virtual_path@ != path)
    } else {
        None
    }
}

/// The first of the records `s[..n]` with path `path`, where there is one.
proof fn lemma_min_match(s: Seq<DirectoryRecord>, path: Seq<char>, n: int) -> (m: int)
    requires
        0 <= n <= s.len(),
        exists|i: int| 0 <= i < n && (#[trigger] s[i]).virtual_path@ == path,
    ensures
        0 <= m < n,
        s[m].virtual_path@ == path,
        forall|j: int| 0 <= j < m ==> (#[trigger] s[j]).virtual_path@ != path,
    decreases n,
{
    if exists|i: int| 0 <= i < n - 1 && (#[trigger] s[i]).virtual_path@ == path {
        lemma_min_match(s, path, n - 1)
    } else {
        let i = choose|i: int| 0 <= i < n && (#[trigger] s[i]).virtual_path@ == path;
        assert(i == n - 1);
        n - 1
    }
}

/// What `first_with_path` finds is a record of `s` with that path.
pub proof fn lemma_first_with_path_in(s: Seq<DirectoryRecord>, path: Seq<char>)
    ensures
        first_with_path(s, path) matches Some(i) ==> 0 <= i < s.len() && s[i].virtual_path@ == path,
{
    if exists|i: int| 0 <= i < s.len() && (#[trigger] s[i]).virtual_path@ == path {
        let m = lemma_min_match(s, path, s.len() as int);
        lemma_first_with_path(s, path, m);
    }
}

/// Existence of a first match, for callers of `first_with_path`.
pub proof fn lemma_first_with_path(s: Seq<DirectoryRecord>, path: Seq<char>, i: int)
    requires
        0 <= i < s.len(),
        s[i].virtual_path@ == path,
        forall|j: int| 0 <= j < i ==> (#[trigger] s[j]).virtual_path@ != path,
    ensures
        first_with_path(s, path) == Some(i),
{
    let k = choose|k: int| 0 <= k < s.len() && (#[trigger] s[k]).virtual_path@ == path && forall|j: int|
        0 <= j < k ==> (#[trigger] s[j]).virtual_path@ != path;
    assert(s[i].virtual_path@ == path);
    if k < i {
        assert(s[k].virtual_path@ != path);
    }
    if i < k {
        assert(s[i].virtual_path@ != path);
    }
}

impl DirectoryStore {
    /// The records, in insertion order.
    pub closed spec fn view(&self) -> Seq<DirectoryRecord> {
        self.records@
    }

    /// An empty store.
    pub fn new() -> (s: Self)
        ensures
            s@ == Seq::<DirectoryRecord>::empty(),
    {
        DirectoryStore { records: Vec::new() }
    }

    /// The index of the first record with path `path`.
    fn find(&self, path: &str) -> (r: Option<usize>)
        ensures
            match r {
                Some(i) => i < self@.len() && first_with_path(self@, path@) == Some(i as int),
                None => first_with_path(self@, path@) is None,
            },
    {
        let mut i: usize = 0;
        while i < self.records.len()
            invariant
                i <= self@.len(),
                self@ == self.records@,
                forall|j: int| 0 <= j < i ==> (#[trigger] self@[j]).virtual_path@ != path@,
            decreases self@.len() - i,
        {
            if str_eq(self.records[i].virtual_path.as_str(), path) {
                proof {
                    lemma_first_with_path(self@, path@, i as int);
                }
                return Some(i);
            }
            i = i + 1;
        }
        None
    }

    /// Records the clusters of the directory at `virtual_path`, replacing the
    /// record already held for that path.
    pub fn insert_directory(&mut self, virtual_path: String, node_id: NodeId, clusters: Vec<u32>)
        ensures
            match first_with_path(old(self)@, virtual_path@) {
                Some(i) => final(self)@ == old(self)@.update(
                    i,
                    (DirectoryRecord { node_id, virtual_path, clusters }),
                ),
                None => final(self)@ == old(self)@.push(
                    (DirectoryRecord { node_id, virtual_path, clusters }),
                ),
            },
    {
        match self.find(virtual_path.as_str()) {
            Some(i) => {
                self.records.set(i, DirectoryRecord { node_id, virtual_path, clusters });
            },
            None => {
                self.records.push(DirectoryRecord { node_id, virtual_path, clusters });
            },
        }
    }

    /// The clusters of the directory at `path`.
    pub fn directory_clusters(&self, path: &str) -> (r: Option<&[u32]>)
        ensures
            match first_with_path(self@, path@) {
                Some(i) => r matches Some(c) && c@ == self@[i].clusters@,
                None => r is None,
            },
    {
        match self.find(path) {
            Some(i) => Some(self.records[i].clusters.as_slice()),
            None => None,
        }
    }

    /// All records.
    pub fn records(&self) -> (r: &[DirectoryRecord])
        ensures
            r@ == self@,
    {
        self.records.as_slice()
    }

    /// Moves the records of the directory `from` and everything below it to `to`.
    pub fn rename_subtree(&mut self, from: &str, to: &str)
        ensures
            final(self)@.len() == old(self)@.len(),
            forall|i: int|
                0 <= i < old(self)@.len() ==> {
                    &&& (#[trigger] final(self)@[i]).node_id == old(self)@[i].node_id
                    &&& final(self)@[i].clusters == old(self)@[i].clusters
                    &&& final(self)@[i].virtual_path@ == (if is_same_path_or_child_spec(
                        old(self)@[i].virtual_path@,
                        from@,
                    ) {
                        remap_path_prefix_spec(old(self)@[i].virtual_path@, from@, to@)
                    } else {
                        old(self)@[i].virtual_path@
                    })
                },
    {
        let mut old_records: Vec<DirectoryRecord> = Vec::new();
        std::mem::swap(&mut old_records, &mut self.records);
        let ghost all = old_records@;
        for r in it: old_records.into_iter()
            invariant
                it.seq() == all,
                all == old(self)@,
                self.records@.len() == it.index(),
                forall|i: int|
                    0 <= i < it.index() ==> {
                        &&& (#[trigger] self.records@[i]).node_id == all[i].node_id
                        &&& self.records@[i].clusters == all[i].clusters
                        &&& self.records@[i].virtual_path@ == (if is_same_path_or_child_spec(
                            all[i].virtual_path@,
                            from@,
                        ) {
                            remap_path_prefix_spec(all[i].virtual_path@, from@, to@)
                        } else {
                            all[i].virtual_path@
                        })
                    },
        {
            let DirectoryRecord { node_id, virtual_path, clusters } = r;
            let path = if is_same_path_or_child(virtual_path.as_str(), from) {
                remap_path_prefix(virtual_path.as_str(), from, to)
            } else {
                virtual_path
            };
            self.records.push(DirectoryRecord { node_id, virtual_path: path, clusters });
        }
    }

    /// Removes the records of the directory `virtual_path` and everything below
    /// it, returning their clusters.
    pub fn remove_subtree(&mut self, virtual_path: &str) -> (removed: Vec<u32>)
        ensures
            final(self)@ == records_outside(old(self)@, virtual_path@),
            removed@ == clusters_under(old(self)@, virtual_path@),
    {
        let mut old_records: Vec<DirectoryRecord> = Vec::new();
        std::mem::swap(&mut old_records, &mut self.records);
        let ghost all = old_records@;
        let mut removed: Vec<u32> = Vec::new();
        for r in it: old_records.into_iter()
            invariant
                it.seq() == all,
                all == old(self)@,
                self.records@ == records_outside(all.take(it.index()), virtual_path@),
                removed@ == clusters_under(all.take(it.index()), virtual_path@),
        {
            assert(all.take(it.index() + 1).drop_last() =~= all.take(it.index()));
            if is_same_path_or_child(r.virtual_path.as_str(), virtual_path) {
                let mut c = r.clusters;
                removed.append(&mut c);
            } else {
                self.records.push(r);
            }
        }
        assert(all.take(all.len() as int) =~= all);
        removed
    }
}

} // verus!
