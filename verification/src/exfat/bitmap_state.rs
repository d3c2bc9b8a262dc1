//! Runtime allocation bitmap state.
use vstd::prelude::*;
use std::collections::BTreeSet;
use crate::error::{io_error, ErrorKind, IoError};
use crate::layout::FIRST_CLUSTER;
use vstd::std_specs::iter::IteratorSpec;

verus! {

broadcast use {vstd::std_specs::btree::group_btree_axioms, vstd::laws_cmp::group_laws_cmp};

/// Which clusters of a volume of `cluster_count` data clusters are allocated.
#[derive(Debug)]
pub struct BitmapState {
    cluster_count: u32,
    allocated: BTreeSet<u32>,
}

/// Whether `cluster` is a data cluster of a volume with `count` clusters.
pub open spec fn cluster_in_range(cluster: u32, count: u32) -> bool {
    FIRST_CLUSTER <= cluster && cluster < FIRST_CLUSTER + count
}

impl BitmapState {
    /// The set of allocated clusters.
    pub closed spec fn view(&self) -> Set<u32> {
        self.allocated@
    }

    /// The number of data clusters.
    pub closed spec fn spec_cluster_count(&self) -> u32 {
        self.cluster_count
    }

    /// Every allocated cluster lies in range.
    pub closed spec fn wf(&self) -> bool {
        &&& self.allocated@.finite()
        &&& forall|c: u32| #[trigger] self.allocated@.contains(c) ==> cluster_in_range(c, self.cluster_count)
    }

    /// An empty bitmap for `cluster_count` clusters.
    /// Allocated clusters lie in the data cluster range.
    pub proof fn lemma_allocated_in_range(&self, c: u32)
        requires
            self.wf(),
            self@.contains(c),
        ensures
            cluster_in_range(c, self.spec_cluster_count()),
    {
    }

    pub fn new(cluster_count: u32) -> (b: Self)
        ensures
            b.wf(),
            b@ == Set::<u32>::empty(),
            b.spec_cluster_count() == cluster_count,
    {
        Self { cluster_count, allocated: BTreeSet::new() }
    }

    /// Marks `cluster` allocated; fails with `InvalidInput` (state unchanged) when it is out of range.
    pub fn mark_allocated(&mut self, cluster: u32) -> (r: Result<(), IoError>)
        requires
            old(self).wf(),
        ensures
            final(self).wf(),
            final(self).spec_cluster_count() == old(self).spec_cluster_count(),
            cluster_in_range(cluster, old(self).spec_cluster_count()) ==> r is Ok && final(self)@ == old(self)@.insert(cluster),
            !cluster_in_range(cluster, old(self).spec_cluster_count()) ==> (r matches Err(e) && e.kind == ErrorKind::InvalidInput)
                && final(self)@ == old(self)@,
    {
        self.validate_cluster(cluster)?;
        self.allocated.insert(cluster);
        Ok(())
    }

    /// Marks `cluster` free; fails with `InvalidInput` (state unchanged) when it is out of range.
    pub fn mark_free(&mut self, cluster: u32) -> (r: Result<(), IoError>)
        requires
            old(self).wf(),
        ensures
            final(self).wf(),
            final(self).spec_cluster_count() == old(self).spec_cluster_count(),
            cluster_in_range(cluster, old(self).spec_cluster_count()) ==> r is Ok && final(self)@ == old(self)@.remove(cluster),
            !cluster_in_range(cluster, old(self).spec_cluster_count()) ==> (r matches Err(e) && e.kind == ErrorKind::InvalidInput)
                && final(self)@ == old(self)@,
    {
        self.validate_cluster(cluster)?;
        self.allocated.remove(&cluster);
        Ok(())
    }

    /// Whether `cluster` is allocated.
    pub fn is_allocated(&self, cluster: u32) -> (r: bool)
        ensures
            r == self@.contains(cluster),
    {
        self.allocated.contains(&cluster)
    }

    /// The allocated clusters in ascending order.
    pub fn allocated_clusters(&self) -> (v: Vec<u32>)
        requires
            self.wf(),
        ensures
            v@.to_set() == self@,
            v@.no_duplicates(),
    {
        let mut out: Vec<u32> = Vec::new();
        let ghost keys = vstd::std_specs::btree::spec_btree_keys_iter(&self.allocated).remaining();
        for c in it: self.allocated.iter()
            invariant
                it.seq() == keys,
                out@ == it.seq().take(it.index()).map_values(|r: &u32| *r),
        {
            assert(it.seq().take(it.index() + 1).map_values(|r: &u32| *r) =~= out@.push(*c));
            out.push(*c);
        }
        proof {
            let s = keys.map_values(|r: &u32| *r);
            assert(keys.take(keys.len() as int) =~= keys);
            assert(out@ =~= s);
            assert(s =~= keys.unref());
        }
        out
    }

    /// The number of data clusters.
    pub fn cluster_count(&self) -> (r: u32)
        ensures
            r == self.spec_cluster_count(),
    {
        self.cluster_count
    }

    fn validate_cluster(&self, cluster: u32) -> (r: Result<(), IoError>)
        ensures
            cluster_in_range(cluster, self.spec_cluster_count()) ==> r is Ok,
            !cluster_in_range(cluster, self.spec_cluster_count()) ==> (r matches Err(e) && e.kind == ErrorKind::InvalidInput),
    {
        if cluster < FIRST_CLUSTER || cluster as u64 >= FIRST_CLUSTER as u64 + self.cluster_count as u64 {
            return Err(io_error(ErrorKind::InvalidInput, "cluster out of range"));
        }
        Ok(())
    }
}

} // verus!
