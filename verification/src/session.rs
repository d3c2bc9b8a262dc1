//! Storage session bookkeeping: the pool of NBD device indices.
use vstd::prelude::*;
use std::collections::HashSet;

verus! {

broadcast use vstd::std_specs::hash::group_hash_axioms;

/// Number of NBD devices a pool hands out by default.
pub const DEFAULT_NBD_POOL_SIZE: u32 = 8;

/// Free and busy NBD device indices. Free indices are handed out last-freed first.
#[derive(Debug)]
pub struct NbdIndexPool {
    available: Vec<u32>,
    in_use: HashSet<u32>,
}

/// The indices `0..n` in order.
pub open spec fn initial_indices(n: u32) -> Seq<u32> {
    Seq::new(n as nat, |i: int| i as u32)
}

/// Pool state after an acquire: the last free index moves to the busy set.
pub open spec fn acquire_step(avail: Seq<u32>, used: Set<u32>) -> (Option<u32>, Seq<u32>, Set<u32>) {
    if avail.len() == 0 {
        (None, avail, used)
    } else {
        (Some(avail.last()), avail.drop_last(), used.insert(avail.last()))
    }
}

/// Pool state after releasing `idx`: it leaves the busy set and becomes free
/// unless it already is.
pub open spec fn release_step(avail: Seq<u32>, used: Set<u32>, idx: u32) -> (Seq<u32>, Set<u32>) {
    (if avail.contains(idx) { avail } else { avail.push(idx) }, used.remove(idx))
}

impl NbdIndexPool {
    /// The free indices, the next one to be handed out last.
    pub closed spec fn spec_available(&self) -> Seq<u32> {
        self.available@
    }

    /// The busy indices.
    pub closed spec fn spec_in_use(&self) -> Set<u32> {
        self.in_use@
    }

    /// No index is free twice, and none is both free and busy.
    pub open spec fn wf(&self) -> bool {
        &&& self.spec_available().no_duplicates()
        &&& forall|i: int|
            0 <= i < self.spec_available().len() ==> !self.spec_in_use().contains(
                #[trigger] self.spec_available()[i],
            )
    }

    /// A pool of the indices `0..pool_size`, all free.
    pub fn new(pool_size: u32) -> (p: Self)
        ensures
            p.wf(),
            p.spec_available() == initial_indices(pool_size),
            p.spec_in_use() == Set::<u32>::empty(),
    {
        let mut available: Vec<u32> = Vec::new();
        let mut i: u32 = 0;
        while i < pool_size
            invariant
                i <= pool_size,
                available@ == initial_indices(i),
            decreases pool_size - i,
        {
            available.push(i);
            i = i + 1;
            assert(available@ =~= initial_indices(i));
        }
        NbdIndexPool { available, in_use: HashSet::new() }
    }

    /// Takes a free index, if there is one.
    pub fn acquire(&mut self) -> (r: Option<u32>)
        requires
            old(self).wf(),
        ensures
            final(self).wf(),
            (r, final(self).spec_available(), final(self).spec_in_use()) == acquire_step(
                old(self).spec_available(),
                old(self).spec_in_use(),
            ),
    {
        match self.available.pop() {
            None => None,
            Some(idx) => {
                self.in_use.insert(idx);
                assert(self.available@ =~= old(self).spec_available().drop_last());
                assert forall|i: int| 0 <= i < self.available@.len() implies !self.in_use@.contains(
                    #[trigger] self.available@[i],
                ) by {
                    assert(old(self).spec_available()[i] == self.available@[i]);
                    assert(old(self).spec_available()[old(self).spec_available().len() - 1] == idx);
                }
                Some(idx)
            },
        }
    }

    /// Returns `idx` to the free indices.
    pub fn release(&mut self, idx: u32)
        requires
            old(self).wf(),
        ensures
            final(self).wf(),
            (final(self).spec_available(), final(self).spec_in_use()) == release_step(
                old(self).spec_available(),
                old(self).spec_in_use(),
                idx,
            ),
    {
        self.in_use.remove(&idx);
        let mut found = false;
        let mut i: usize = 0;
        while i < self.available.len()
            invariant
                i <= self.available@.len(),
                found == (exists|k: int| 0 <= k < i && self.available@[k] == idx),
            decreases self.available@.len() - i,
        {
            if self.available[i] == idx {
                found = true;
            }
            i = i + 1;
        }
        if !found {
            self.available.push(idx);
            assert forall|a: int, b: int| 0 <= a < b < self.available@.len() implies self.available@[a]
                != self.available@[b] by {
                if b == self.available@.len() - 1 {
                    assert(old(self).spec_available()[a] == self.available@[a]);
                }
            }
        } else {
            proof {
                let k = choose|k: int| 0 <= k < old(self).spec_available().len() && old(self).spec_available()[k] == idx;
                assert(old(self).spec_available().contains(idx));
            }
        }
    }
}

/// The pool of the indices `0..n`: the free indices, each once, and the busy
/// ones are apart, and together they are exactly the indices below `n`.
pub open spec fn pool_inv(avail: Seq<u32>, used: Set<u32>, n: u32) -> bool {
    &&& avail.no_duplicates()
    &&& forall|i: int| 0 <= i < avail.len() ==> #[trigger] avail[i] < n && !used.contains(avail[i])
    &&& forall|x: u32| #[trigger] used.contains(x) ==> x < n
    &&& forall|x: u32| x < n ==> #[trigger] avail.contains(x) || used.contains(x)
}

/// A new pool of `n` indices is a pool of the indices `0..n`.
pub proof fn lemma_pool_new(n: u32)
    ensures
        pool_inv(initial_indices(n), Set::<u32>::empty(), n),
{
    let a = initial_indices(n);
    assert forall|x: u32| x < n implies #[trigger] a.contains(x) || Set::<u32>::empty().contains(x) by {
        assert(a[x as int] == x);
    }
}

/// Acquiring from a pool of `0..n` keeps it one; it hands out an index that
/// was not busy, below `n`, and marks it busy, and it hands out none exactly
/// when all `n` indices are busy.
pub proof fn lemma_pool_acquire(avail: Seq<u32>, used: Set<u32>, n: u32)
    requires
        pool_inv(avail, used, n),
    ensures
        ({
            let (r, a1, u1) = acquire_step(avail, used);
            &&& pool_inv(a1, u1, n)
            &&& r is None <==> forall|x: u32| x < n ==> #[trigger] used.contains(x)
            &&& r matches Some(i) ==> i < n && !used.contains(i) && u1 == used.insert(i)
        }),
{
    let (r, a1, u1) = acquire_step(avail, used);
    if avail.len() == 0 {
        assert forall|x: u32| x < n implies #[trigger] used.contains(x) by {
            assert(!avail.contains(x));
        }
    } else {
        let i = avail.last();
        assert(avail[avail.len() - 1] == i);
        assert(!(forall|x: u32| x < n ==> #[trigger] used.contains(x))) by {
            assert(i < n && !used.contains(i));
        }
        assert forall|k: int| 0 <= k < a1.len() implies #[trigger] a1[k] < n && !u1.contains(a1[k]) by {
            assert(a1[k] == avail[k]);
            assert(avail[k] != avail[avail.len() - 1]);
        }
        assert forall|x: u32| x < n implies #[trigger] a1.contains(x) || u1.contains(x) by {
            if avail.contains(x) && x != i {
                let k = choose|k: int| 0 <= k < avail.len() && avail[k] == x;
                assert(k != avail.len() - 1);
                assert(a1[k] == x);
            }
        }
    }
}

/// Releasing a busy index of a pool of `0..n` keeps it one, and the index is
/// the next one handed out.
pub proof fn lemma_pool_release(avail: Seq<u32>, used: Set<u32>, n: u32, idx: u32)
    requires
        pool_inv(avail, used, n),
        used.contains(idx),
    ensures
        ({
            let (a1, u1) = release_step(avail, used, idx);
            &&& pool_inv(a1, u1, n)
            &&& acquire_step(a1, u1).0 == Some(idx)
        }),
{
    assert(!avail.contains(idx));
    let (a1, u1) = release_step(avail, used, idx);
    assert(a1 == avail.push(idx));
    assert forall|x: u32| x < n implies #[trigger] a1.contains(x) || u1.contains(x) by {
        if x == idx {
            assert(a1[avail.len() as int] == idx);
        } else if avail.contains(x) {
            let k = choose|k: int| 0 <= k < avail.len() && avail[k] == x;
            assert(a1[k] == x);
        }
    }
    assert forall|k: int| 0 <= k < a1.len() implies #[trigger] a1[k] < n && !u1.contains(a1[k]) by {
        if k < avail.len() {
            assert(a1[k] == avail[k]);
        }
    }
    assert forall|p: int, q: int| 0 <= p < q < a1.len() implies a1[p] != a1[q] by {
        if q == avail.len() {
            assert(a1[p] == avail[p]);
        } else {
            assert(a1[p] == avail[p] && a1[q] == avail[q]);
        }
    }
}

/// One call on the index pool: acquiring an index, or releasing one.
pub enum PoolEvent {
    Acquire,
    Release(u32),
}

/// The free and busy indices of a new pool of `n` after `events`.
pub open spec fn pool_after(n: u32, events: Seq<PoolEvent>) -> (Seq<u32>, Set<u32>)
    decreases events.len(),
{
    if events.len() == 0 {
        (initial_indices(n), Set::<u32>::empty())
    } else {
        let (a, u) = pool_after(n, events.drop_last());
        match events.last() {
            PoolEvent::Acquire => {
                let (_, a1, u1) = acquire_step(a, u);
                (a1, u1)
            },
            PoolEvent::Release(idx) => release_step(a, u, idx),
        }
    }
}

/// After any sequence of acquires and releases of indices below `n`, the pool
/// still holds each index below `n` exactly once, free or busy; the next
/// acquire hands out an index below `n` that is not busy, and marks it busy,
/// or none exactly when all `n` are busy.
pub proof fn lemma_pool_history(n: u32, events: Seq<PoolEvent>)
    requires
        forall|k: int| 0 <= k < events.len() ==> (#[trigger] events[k] matches PoolEvent::Release(i) ==> i < n),
    ensures
        ({
            let (a, u) = pool_after(n, events);
            let (r, a1, u1) = acquire_step(a, u);
            &&& pool_inv(a, u, n)
            &&& r is None <==> forall|x: u32| x < n ==> #[trigger] u.contains(x)
            &&& r matches Some(i) ==> i < n && !u.contains(i) && u1 == u.insert(i)
        }),
    decreases events.len(),
{
    if events.len() == 0 {
        lemma_pool_new(n);
    } else {
        let prev = events.drop_last();
        assert forall|k: int| 0 <= k < prev.len() implies (#[trigger] prev[k] matches PoolEvent::Release(i) ==> i < n) by {
            assert(prev[k] == events[k]);
        }
        lemma_pool_history(n, prev);
        let (a, u) = pool_after(n, prev);
        match events.last() {
            PoolEvent::Acquire => {
                lemma_pool_acquire(a, u, n);
            },
            PoolEvent::Release(idx) => {
                assert(events[events.len() - 1] == events.last());
                if a.contains(idx) {
                    lemma_pool_release_again(a, u, n, idx);
                } else {
                    lemma_pool_release(a, u, n, idx);
                }
            },
        }
        let (a2, u2) = pool_after(n, events);
        lemma_pool_acquire(a2, u2, n);
    }
}

/// Releasing an index that is already free changes nothing.
pub proof fn lemma_pool_release_again(avail: Seq<u32>, used: Set<u32>, n: u32, idx: u32)
    requires
        pool_inv(avail, used, n),
        avail.contains(idx),
    ensures
        release_step(avail, used, idx) == (avail, used),
{
    let k = choose|k: int| 0 <= k < avail.len() && avail[k] == idx;
    assert(!used.contains(avail[k]));
    assert(used.remove(idx) =~= used);
}

/// Releasing the index an acquire handed out puts the pool back as it was.
pub proof fn lemma_acquire_release(avail: Seq<u32>, used: Set<u32>)
    requires
        avail.len() > 0,
        avail.no_duplicates(),
        forall|i: int| 0 <= i < avail.len() ==> !used.contains(#[trigger] avail[i]),
    ensures
        ({
            let (r, a1, u1) = acquire_step(avail, used);
            release_step(a1, u1, r->0) == (avail, used)
        }),
{
    let idx = avail.last();
    let a1 = avail.drop_last();
    assert(!a1.contains(idx)) by {
        if a1.contains(idx) {
            let k = choose|k: int| 0 <= k < a1.len() && a1[k] == idx;
            assert(avail[k] == avail[avail.len() - 1]);
        }
    }
    assert(a1.push(idx) =~= avail);
    assert(!used.contains(idx));
    assert(used.insert(idx).remove(idx) =~= used);
}

} // verus!
