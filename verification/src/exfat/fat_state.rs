//! Runtime FAT state: the next-cluster link of every cluster in a chain.
use vstd::prelude::*;
use std::collections::HashMap;
use crate::error::{io_error, ErrorKind, IoError};
use crate::exfat::bitmap_state::cluster_in_range;
use crate::layout::{FAT_END_OF_CHAIN, FIRST_CLUSTER};

verus! {

broadcast use vstd::std_specs::hash::group_hash_axioms;

/// FAT links of a volume with `cluster_count` data clusters.
#[derive(Debug)]
pub struct FatState {
    cluster_count: u32,
    entries: HashMap<u32, u32>,
}

/// The link stored for position `p` of `chain`: the next cluster, or end-of-chain.
pub open spec fn chain_link(chain: Seq<u32>, p: int) -> u32 {
    if p + 1 < chain.len() { chain[p + 1] } else { FAT_END_OF_CHAIN }
}

/// `m` after linking the first `k` positions of `chain`.
pub open spec fn link_prefix(m: Map<u32, u32>, chain: Seq<u32>, k: int) -> Map<u32, u32>
    decreases k,
{
    if k <= 0 {
        m
    } else {
        link_prefix(m, chain, k - 1).insert(chain[k - 1], chain_link(chain, k - 1))
    }
}

/// The link that the FAT holds for `c` (end-of-chain when absent).
pub open spec fn next_of(m: Map<u32, u32>, c: u32) -> u32 {
    if m.contains_key(c) { m[c] } else { FAT_END_OF_CHAIN }
}

/// Following links from `cur` (a valid cluster) with at most `fuel` further steps:
/// the clusters visited up to the end-of-chain mark; `None` when a link leaves the
/// valid range or the fuel runs out (the chain loops).
pub open spec fn walk(m: Map<u32, u32>, cur: u32, count: u32, fuel: nat) -> Option<Seq<u32>>
    decreases fuel,
{
    let next = next_of(m, cur);
    if next == FAT_END_OF_CHAIN {
        Some(seq![cur])
    } else if !cluster_in_range(next, count) || fuel == 0 {
        None
    } else {
        match walk(m, next, count, (fuel - 1) as nat) {
            Some(rest) => Some(seq![cur] + rest),
            None => None,
        }
    }
}

/// The chain from `start`: `None` when `start` is out of range, a link leaves the
/// range, or the chain loops.
pub open spec fn spec_chain_from(m: Map<u32, u32>, start: u32, count: u32) -> Option<Seq<u32>> {
    if !cluster_in_range(start, count) {
        None
    } else {
        walk(m, start, count, count as nat)
    }
}

/// After linking `cs[..k]` (no cluster twice), each of those clusters links
/// to the next of the chain.
proof fn lemma_link_prefix_at(m: Map<u32, u32>, cs: Seq<u32>, k: int, j: int)
    requires
        0 <= j < k <= cs.len(),
        cs.no_duplicates(),
    ensures
        link_prefix(m, cs, k).contains_key(cs[j]),
        link_prefix(m, cs, k)[cs[j]] == chain_link(cs, j),
    decreases k,
{
    if j < k - 1 {
        lemma_link_prefix_at(m, cs, k - 1, j);
        assert(cs[k - 1] != cs[j]);
    }
}

/// Walking a linked chain from its `j`-th cluster gives the rest of it.
proof fn lemma_walk_linked(m: Map<u32, u32>, cs: Seq<u32>, count: u32, j: int, fuel: nat)
    requires
        0 <= j < cs.len(),
        cs.no_duplicates(),
        forall|i: int| 0 <= i < cs.len() ==> cluster_in_range(#[trigger] cs[i], count) && cs[i] != FAT_END_OF_CHAIN,
        fuel >= cs.len() - 1 - j,
    ensures
        walk(link_prefix(m, cs, cs.len() as int), cs[j], count, fuel) == Some(cs.skip(j)),
    decreases cs.len() - j,
{
    let mm = link_prefix(m, cs, cs.len() as int);
    lemma_link_prefix_at(m, cs, cs.len() as int, j);
    if j == cs.len() - 1 {
        assert(cs.skip(j) =~= seq![cs[j]]);
    } else {
        assert(cs[j + 1] != FAT_END_OF_CHAIN && cluster_in_range(cs[j + 1], count));
        lemma_walk_linked(m, cs, count, j + 1, (fuel - 1) as nat);
        assert(cs.skip(j) =~= seq![cs[j]] + cs.skip(j + 1));
    }
}

/// The chain read back from the first cluster of a chain just linked is that
/// chain (for distinct clusters in range, none of them the end-of-chain mark).
pub proof fn lemma_chain_round_trip(m: Map<u32, u32>, cs: Seq<u32>, count: u32)
    requires
        cs.len() > 0,
        cs.no_duplicates(),
        forall|i: int| 0 <= i < cs.len() ==> cluster_in_range(#[trigger] cs[i], count) && cs[i] != FAT_END_OF_CHAIN,
    ensures
        spec_chain_from(link_prefix(m, cs, cs.len() as int), cs[0], count) == Some(cs),
{
    let ci = cs.map_values(|c: u32| c as int);
    assert forall|a: int, b: int| 0 <= a < b < ci.len() implies ci[a] != ci[b] by {
        assert(cs[a] != cs[b]);
    }
    assert(ci.no_duplicates());
    ci.unique_seq_to_set();
    let range = vstd::set_lib::set_int_range(2, 2 + count);
    vstd::set_lib::lemma_int_range(2, 2 + count);
    assert forall|x: int| ci.to_set().contains(x) implies range.contains(x) by {
        let k = choose|k: int| 0 <= k < ci.len() && ci[k] == x;
        assert(cluster_in_range(cs[k], count));
    }
    vstd::set_lib::lemma_len_subset(ci.to_set(), range);
    lemma_walk_linked(m, cs, count, 0, count as nat);
    assert(cs.skip(0) =~= cs);
}

impl FatState {
    /// The FAT links.
    pub closed spec fn view(&self) -> Map<u32, u32> {
        self.entries@
    }

    /// The number of data clusters.
    pub closed spec fn spec_cluster_count(&self) -> u32 {
        self.cluster_count
    }

    /// An empty FAT for `cluster_count` clusters.
    pub fn new(cluster_count: u32) -> (f: Self)
        ensures
            f@ == Map::<u32, u32>::empty(),
            f.spec_cluster_count() == cluster_count,
    {
        Self { cluster_count, entries: HashMap::new() }
    }

    /// Links the clusters of `chain` in order, the last one to end-of-chain. Fails
    /// with `InvalidInput`, changing nothing, when a cluster is out of range.
    pub fn set_chain(&mut self, chain: &[u32]) -> (r: Result<(), IoError>)
        ensures
            final(self).spec_cluster_count() == old(self).spec_cluster_count(),
            (forall|i: int| 0 <= i < chain@.len() ==> cluster_in_range(#[trigger] chain@[i], old(self).spec_cluster_count()))
                ==> r is Ok && final(self)@ == link_prefix(old(self)@, chain@, chain@.len() as int),
            !(forall|i: int| 0 <= i < chain@.len() ==> cluster_in_range(#[trigger] chain@[i], old(self).spec_cluster_count()))
                ==> (r matches Err(e) && e.kind == ErrorKind::InvalidInput) && final(self)@ == old(self)@,
    {
        let n = chain.len();
        if n == 0 {
            return Ok(());
        }
        let mut i: usize = 0;
        while i < n
            invariant
                i <= n == chain@.len(),
                forall|j: int| 0 <= j < i ==> cluster_in_range(#[trigger] chain@[j], self.spec_cluster_count()),
            decreases n - i,
        {
            if !self.valid(chain[i]) {
                return Err(io_error(ErrorKind::InvalidInput, "cluster out of range"));
            }
            i = i + 1;
        }
        let ghost orig = self.entries@;
        let mut p: usize = 0;
        while p < n
            invariant
                p <= n == chain@.len(),
                self.cluster_count == old(self).spec_cluster_count(),
                orig == old(self)@,
                self.entries@ == link_prefix(orig, chain@, p as int),
            decreases n - p,
        {
            let value = if p + 1 < n { chain[p + 1] } else { FAT_END_OF_CHAIN };
            self.entries.insert(chain[p], value);
            p = p + 1;
        }
        Ok(())
    }

    /// Frees `cluster` (removes its link); `InvalidInput` when it is out of range.
    pub fn mark_free(&mut self, cluster: u32) -> (r: Result<(), IoError>)
        ensures
            final(self).spec_cluster_count() == old(self).spec_cluster_count(),
            cluster_in_range(cluster, old(self).spec_cluster_count()) ==> r is Ok && final(self)@ == old(self)@.remove(cluster),
            !cluster_in_range(cluster, old(self).spec_cluster_count()) ==> (r matches Err(e) && e.kind == ErrorKind::InvalidInput)
                && final(self)@ == old(self)@,
    {
        if !self.valid(cluster) {
            return Err(io_error(ErrorKind::InvalidInput, "cluster out of range"));
        }
        self.entries.remove(&cluster);
        Ok(())
    }

    /// The link stored for `cluster`, if any.
    pub fn entry_for(&self, cluster: u32) -> (r: Option<u32>)
        ensures
            r == (if self@.contains_key(cluster) { Some(self@[cluster]) } else { None::<u32> }),
    {
        match self.entries.get(&cluster) {
            Some(v) => Some(*v),
            None => None,
        }
    }

    /// The number of data clusters.
    pub fn cluster_count(&self) -> (r: u32)
        ensures
            r == self.spec_cluster_count(),
    {
        self.cluster_count
    }

    /// The cluster chain that starts at `start`. Fails with `InvalidInput` when
    /// `start` or a link is out of range and with `InvalidData` when the chain loops.
    pub fn chain_from(&self, start: u32) -> (r: Result<Vec<u32>, IoError>)
        ensures
            match spec_chain_from(self@, start, self.spec_cluster_count()) {
                Some(c) => r matches Ok(v) && v@ == c,
                None => r is Err,
            },
            !cluster_in_range(start, self.spec_cluster_count()) ==> (r matches Err(e) && e.kind == ErrorKind::InvalidInput),
    {
        if !self.valid(start) {
            return Err(io_error(ErrorKind::InvalidInput, "cluster out of range"));
        }
        let mut out: Vec<u32> = Vec::new();
        let mut current = start;
        let mut fuel: u32 = self.cluster_count;
        loop
            invariant
                cluster_in_range(start, self.spec_cluster_count()),
                cluster_in_range(current, self.spec_cluster_count()),
                match spec_chain_from(self@, start, self.spec_cluster_count()) {
                    Some(full) => walk(self@, current, self.spec_cluster_count(), fuel as nat) matches Some(rest)
                        && full == out@ + rest,
                    None => walk(self@, current, self.spec_cluster_count(), fuel as nat) is None,
                },
            decreases fuel,
        {
            let ghost before = out@;
            out.push(current);
            let next = match self.entries.get(&current) {
                Some(v) => *v,
                None => FAT_END_OF_CHAIN,
            };
            if next == FAT_END_OF_CHAIN {
                return Ok(out);
            }
            if !self.valid(next) {
                return Err(io_error(ErrorKind::InvalidInput, "cluster out of range"));
            }
            if fuel == 0 {
                return Err(io_error(ErrorKind::InvalidData, "cluster chain loops"));
            }
            proof {
                if spec_chain_from(self@, start, self.spec_cluster_count()) is Some {
                    let full = spec_chain_from(self@, start, self.spec_cluster_count())->0;
                    let rest2 = walk(self@, next, self.spec_cluster_count(), (fuel - 1) as nat)->0;
                    assert(full =~= out@ + rest2);
                }
            }
            current = next;
            fuel = fuel - 1;
        }
    }

    fn valid(&self, cluster: u32) -> (r: bool)
        ensures
            r == cluster_in_range(cluster, self.spec_cluster_count()),
    {
        cluster >= FIRST_CLUSTER && (cluster as u64) < FIRST_CLUSTER as u64 + self.cluster_count as u64
    }
}

} // verus!
