//! Runtime exFAT sector ownership map.
use vstd::prelude::*;
use crate::error::{io_error, ErrorKind, IoError};

verus! {

/// What a sector of the virtual disk belongs to.
#[derive(Debug, Clone, Copy, PartialEq, Eq, Structural)]
pub enum SectorOwner {
    OutOfRange,
    Mbr,
    BootRegion,
    BackupBootRegion,
    Fat,
    AllocationBitmap,
    UpcaseTable,
    RootDirectory,
    DirectoryData { node_id: u64 },
    FileData { node_id: u64, file_offset: u64, valid_bytes: u32 },
    FileDataRange { node_id: u64, file_offset: u64, byte_len: u64 },
    AllocatedZero { node_id: u64, file_offset: u64 },
    FreeCluster { cluster: u32 },
    FreeClusterRange { first_cluster: u32, first_sector: u64, sectors_per_cluster: u64 },
    Reserved,
    Unknown,
}

/// An explicitly marked run of sectors.
#[derive(Debug, Clone, Copy)]
pub struct OwnerRange {
    pub start: u64,
    pub len: u64,
    pub owner: SectorOwner,
}

/// Ownership of every sector: explicit ranges (the latest mark wins), then the
/// registered cluster runs (reported as free clusters), then `Reserved`.
#[derive(Debug, Clone)]
pub struct SectorOwnerMap {
    total_sectors: u64,
    cluster_lookup: Vec<(u32, u64, u64, u64)>,
    ranges: Vec<OwnerRange>,
}

/// The owner a range reports for `sector`: a run of free clusters names the
/// cluster that holds the sector; any other owner is reported as stored.
pub open spec fn resolve_owner(owner: SectorOwner, sector: int) -> SectorOwner {
    match owner {
        SectorOwner::FreeClusterRange { first_cluster, first_sector, sectors_per_cluster } =>
            if sectors_per_cluster > 0 && sector >= first_sector
                && first_cluster + (sector - first_sector) / (sectors_per_cluster as int) <= u32::MAX {
                SectorOwner::FreeCluster {
                    cluster: (first_cluster + (sector - first_sector) / (sectors_per_cluster as int)) as u32,
                }
            } else {
                owner
            },
        _ => owner,
    }
}

/// The owner from the last of the first `n` ranges that contains `sector`.
pub open spec fn last_range_owner(ranges: Seq<OwnerRange>, sector: int, n: int) -> Option<SectorOwner>
    decreases n,
{
    if n <= 0 {
        None
    } else {
        let r = ranges[n - 1];
        if r.start <= sector < r.start + r.len {
            Some(resolve_owner(r.owner, sector))
        } else {
            last_range_owner(ranges, sector, n - 1)
        }
    }
}

/// The cluster that a registered run `(first cluster, first sector, sectors,
/// sectors per cluster)` assigns to `sector`, if the run holds it.
pub open spec fn run_cluster(run: (u32, u64, u64, u64), sector: int) -> Option<u32> {
    let (first, start, len, spc) = run;
    if spc > 0 && start <= sector < start + len && first + (sector - start) / (spc as int) <= u32::MAX {
        Some((first + (sector - start) / (spc as int)) as u32)
    } else {
        None
    }
}

/// The free cluster of the first registered run, from index `i` on, that holds `sector`.
pub open spec fn lookup_cluster(lookup: Seq<(u32, u64, u64, u64)>, sector: int, i: int) -> Option<u32>
    decreases lookup.len() - i,
{
    if i < 0 || i >= lookup.len() {
        None
    } else {
        match run_cluster(lookup[i], sector) {
            Some(c) => Some(c),
            None => lookup_cluster(lookup, sector, i + 1),
        }
    }
}

/// The owner of `sector` on a disk of `total` sectors with the explicit
/// ranges `ranges` and the registered cluster runs `lookup`: out of range past
/// the disk; else the last range that holds it; else the free cluster of the
/// first run that holds it; else reserved.
pub open spec fn owner_in(total: u64, ranges: Seq<OwnerRange>, lookup: Seq<(u32, u64, u64, u64)>, sector: u64) -> SectorOwner {
    if sector >= total {
        SectorOwner::OutOfRange
    } else {
        match last_range_owner(ranges, sector as int, ranges.len() as int) {
            Some(o) => o,
            None => match lookup_cluster(lookup, sector as int, 0) {
                Some(c) => SectorOwner::FreeCluster { cluster: c },
                None => SectorOwner::Reserved,
            },
        }
    }
}

/// A new map gives every sector of the disk as reserved, the others as out of
/// range.
pub proof fn lemma_owner_new(total: u64, sector: u64)
    ensures
        owner_in(total, seq![], seq![], sector) == if sector >= total {
            SectorOwner::OutOfRange
        } else {
            SectorOwner::Reserved
        },
{
}

/// After a range is marked, its sectors have its owner and the others keep
/// theirs.
pub proof fn lemma_owner_after_mark(
    total: u64,
    ranges: Seq<OwnerRange>,
    lookup: Seq<(u32, u64, u64, u64)>,
    r: OwnerRange,
    sector: u64,
)
    ensures
        owner_in(total, ranges.push(r), lookup, sector) == if sector < total && r.start <= sector < r.start + r.len {
            resolve_owner(r.owner, sector as int)
        } else {
            owner_in(total, ranges, lookup, sector)
        },
{
    let rs = ranges.push(r);
    assert(rs[rs.len() - 1] == r);
    if !(r.start <= sector < r.start + r.len) {
        lemma_last_range_prefix(rs, ranges, sector as int, ranges.len() as int);
    }
}

/// The last matching range among the first `n` is the same in two lists that
/// agree on them.
proof fn lemma_last_range_prefix(a: Seq<OwnerRange>, b: Seq<OwnerRange>, sector: int, n: int)
    requires
        0 <= n <= a.len(),
        n <= b.len(),
        forall|i: int| 0 <= i < n ==> a[i] == b[i],
    ensures
        last_range_owner(a, sector, n) == last_range_owner(b, sector, n),
    decreases n,
{
    if n > 0 {
        lemma_last_range_prefix(a, b, sector, n - 1);
    }
}

/// Looking up a cluster run after another run is registered: the earlier runs
/// win, the new one answers only where none holds the sector.
proof fn lemma_lookup_push(lookup: Seq<(u32, u64, u64, u64)>, run: (u32, u64, u64, u64), sector: int, i: int)
    requires
        0 <= i <= lookup.len(),
    ensures
        lookup_cluster(lookup.push(run), sector, i) == match lookup_cluster(lookup, sector, i) {
            Some(c) => Some(c),
            None => run_cluster(run, sector),
        },
    decreases lookup.len() - i,
{
    let lp = lookup.push(run);
    if i < lookup.len() {
        assert(lp[i] == lookup[i]);
        lemma_lookup_push(lookup, run, sector, i + 1);
    } else {
        assert(lp[i] == run);
        assert(lookup_cluster(lp, sector, i + 1) is None);
    }
}

/// After a cluster run is registered, the sectors of the disk that no range
/// and no earlier run holds become free sectors of its clusters; the others
/// keep their owners.
pub proof fn lemma_owner_after_register(
    total: u64,
    ranges: Seq<OwnerRange>,
    lookup: Seq<(u32, u64, u64, u64)>,
    run: (u32, u64, u64, u64),
    sector: u64,
)
    ensures
        owner_in(total, ranges, lookup.push(run), sector) == if sector < total && last_range_owner(
            ranges,
            sector as int,
            ranges.len() as int,
        ) is None && lookup_cluster(lookup, sector as int, 0) is None && run_cluster(run, sector as int) is Some {
            SectorOwner::FreeCluster { cluster: run_cluster(run, sector as int)->0 }
        } else {
            owner_in(total, ranges, lookup, sector)
        },
{
    lemma_lookup_push(lookup, run, sector as int, 0);
}

/// The last of the first `n` ranges of `a + b` that holds `sector` is the
/// last such range of `b`, or else of `a`.
proof fn lemma_last_range_concat(a: Seq<OwnerRange>, b: Seq<OwnerRange>, sector: int, n: int)
    requires
        0 <= n <= b.len(),
    ensures
        last_range_owner(a + b, sector, a.len() + n) == match last_range_owner(b, sector, n) {
            Some(o) => Some(o),
            None => last_range_owner(a, sector, a.len() as int),
        },
    decreases n,
{
    let ab = a + b;
    if n == 0 {
        lemma_last_range_prefix(ab, a, sector, a.len() as int);
    } else {
        assert(ab[a.len() + n - 1] == b[n - 1]);
        lemma_last_range_concat(a, b, sector, n - 1);
    }
}

/// After the ranges `extra` are marked, a sector that none of them holds
/// keeps its owner; one that some hold gets the owner of the last of them.
pub proof fn lemma_owner_after_marks(
    total: u64,
    ranges: Seq<OwnerRange>,
    extra: Seq<OwnerRange>,
    lookup: Seq<(u32, u64, u64, u64)>,
    sector: u64,
)
    ensures
        owner_in(total, ranges + extra, lookup, sector) == match last_range_owner(extra, sector as int, extra.len() as int) {
            Some(o) => if sector < total {
                o
            } else {
                SectorOwner::OutOfRange
            },
            None => owner_in(total, ranges, lookup, sector),
        },
{
    lemma_last_range_concat(ranges, extra, sector as int, extra.len() as int);
}

/// Where every range of the first `n` that holds `sector` reports an owner
/// with property `p`, so does the last of them.
pub proof fn lemma_last_range_all(rs: Seq<OwnerRange>, sector: int, n: int, p: spec_fn(SectorOwner) -> bool)
    requires
        0 <= n <= rs.len(),
        forall|k: int| 0 <= k < n && rs[k].start <= sector < rs[k].start + rs[k].len ==> p(resolve_owner(#[trigger] rs[k].owner, sector)),
    ensures
        last_range_owner(rs, sector, n) matches Some(o) ==> p(o),
    decreases n,
{
    if n > 0 {
        lemma_last_range_all(rs, sector, n - 1, p);
    }
}

/// A sector that one of the first `n` ranges holds has an owner from them.
pub proof fn lemma_last_range_some(rs: Seq<OwnerRange>, sector: int, n: int, k: int)
    requires
        0 <= k < n <= rs.len(),
        rs[k].start <= sector < rs[k].start + rs[k].len,
    ensures
        last_range_owner(rs, sector, n) is Some,
    decreases n,
{
    if n - 1 > k {
        lemma_last_range_some(rs, sector, n - 1, k);
    }
}

/// A sector that none of the first `n` ranges holds has no owner from them.
pub proof fn lemma_last_range_none(rs: Seq<OwnerRange>, sector: int, n: int)
    requires
        0 <= n <= rs.len(),
        forall|k: int| 0 <= k < n ==> !((#[trigger] rs[k]).start <= sector < rs[k].start + rs[k].len),
    ensures
        last_range_owner(rs, sector, n) is None,
    decreases n,
{
    if n > 0 {
        lemma_last_range_none(rs, sector, n - 1);
    }
}

/// One call on a sector-owner map: registering a run of free clusters
/// `(first cluster, first sector, sectors, sectors per cluster)`, or marking
/// `len` sectors from `start` as owned by `owner`.
pub enum OwnerEvent {
    Register(u32, u64, u64, u64),
    Mark(u64, u64, SectorOwner),
}

/// The explicit ranges a map of `total` sectors holds after `events`, by the
/// contracts of `mark_range` and the registering calls: a mark that is empty
/// or leaves the disk adds nothing.
pub open spec fn events_ranges(total: u64, events: Seq<OwnerEvent>) -> Seq<OwnerRange>
    decreases events.len(),
{
    if events.len() == 0 {
        seq![]
    } else {
        let r = events_ranges(total, events.drop_last());
        match events.last() {
            OwnerEvent::Mark(start, len, owner) => if len > 0 && start + len <= total {
                r.push(OwnerRange { start, len, owner })
            } else {
                r
            },
            OwnerEvent::Register(..) => r,
        }
    }
}

/// The registered cluster runs after `events`.
pub open spec fn events_lookup(events: Seq<OwnerEvent>) -> Seq<(u32, u64, u64, u64)>
    decreases events.len(),
{
    if events.len() == 0 {
        seq![]
    } else {
        let r = events_lookup(events.drop_last());
        match events.last() {
            OwnerEvent::Register(c, start, len, spc) => r.push((c, start, len, spc)),
            OwnerEvent::Mark(..) => r,
        }
    }
}

/// The owner of `sector` given by the last successful mark that covers it.
pub open spec fn last_mark(total: u64, events: Seq<OwnerEvent>, sector: int) -> Option<SectorOwner>
    decreases events.len(),
{
    if events.len() == 0 {
        None
    } else {
        match events.last() {
            OwnerEvent::Mark(start, len, owner) => if len > 0 && start + len <= total && start <= sector < start + len {
                Some(resolve_owner(owner, sector))
            } else {
                last_mark(total, events.drop_last(), sector)
            },
            OwnerEvent::Register(..) => last_mark(total, events.drop_last(), sector),
        }
    }
}

/// The cluster that the first registered run covering `sector` gives it.
pub open spec fn first_run(events: Seq<OwnerEvent>, sector: int) -> Option<u32>
    decreases events.len(),
{
    if events.len() == 0 {
        None
    } else {
        match first_run(events.drop_last(), sector) {
            Some(c) => Some(c),
            None => match events.last() {
                OwnerEvent::Register(c, start, len, spc) => run_cluster((c, start, len, spc), sector),
                OwnerEvent::Mark(..) => None,
            },
        }
    }
}

/// The owner of `sector` after `events` on a new map of `total` sectors: out
/// of range past the disk; else the owner of the last successful mark that
/// covers it; else the free cluster of the first registered run that covers
/// it; else reserved.
pub open spec fn history_owner(total: u64, events: Seq<OwnerEvent>, sector: u64) -> SectorOwner {
    if sector >= total {
        SectorOwner::OutOfRange
    } else {
        match last_mark(total, events, sector as int) {
            Some(o) => o,
            None => match first_run(events, sector as int) {
                Some(c) => SectorOwner::FreeCluster { cluster: c },
                None => SectorOwner::Reserved,
            },
        }
    }
}

proof fn lemma_events_ranges_owner(total: u64, events: Seq<OwnerEvent>, sector: int)
    ensures
        last_range_owner(events_ranges(total, events), sector, events_ranges(total, events).len() as int) == last_mark(
            total,
            events,
            sector,
        ),
    decreases events.len(),
{
    if events.len() > 0 {
        let prev = events.drop_last();
        lemma_events_ranges_owner(total, prev, sector);
        let rs = events_ranges(total, prev);
        match events.last() {
            OwnerEvent::Mark(start, len, owner) => {
                if len > 0 && start + len <= total {
                    let r = OwnerRange { start, len, owner };
                    let ps = rs.push(r);
                    assert(ps[ps.len() - 1] == r);
                    lemma_last_range_prefix(ps, rs, sector, rs.len() as int);
                }
            },
            OwnerEvent::Register(..) => {},
        }
    }
}

proof fn lemma_events_lookup_cluster(events: Seq<OwnerEvent>, sector: int)
    ensures
        lookup_cluster(events_lookup(events), sector, 0) == first_run(events, sector),
    decreases events.len(),
{
    if events.len() > 0 {
        let prev = events.drop_last();
        lemma_events_lookup_cluster(prev, sector);
        match events.last() {
            OwnerEvent::Register(c, start, len, spc) => {
                lemma_lookup_push(events_lookup(prev), (c, start, len, spc), sector, 0);
            },
            OwnerEvent::Mark(..) => {},
        }
    }
}

/// A map built by any sequence of registering and marking calls reports, for
/// every sector, the owner of the last successful mark that covers it, else
/// the free cluster of the first registered run that covers it, else reserved;
/// past the disk, out of range.
pub proof fn lemma_owner_history(total: u64, events: Seq<OwnerEvent>, sector: u64)
    ensures
        owner_in(total, events_ranges(total, events), events_lookup(events), sector) == history_owner(total, events, sector),
{
    lemma_events_ranges_owner(total, events, sector as int);
    lemma_events_lookup_cluster(events, sector as int);
}

impl SectorOwnerMap {
    /// Total sectors of the virtual disk.
    pub closed spec fn spec_total(&self) -> u64 {
        self.total_sectors
    }

    /// The explicit ranges, oldest first.
    pub closed spec fn spec_ranges(&self) -> Seq<OwnerRange> {
        self.ranges@
    }

    /// The registered cluster runs `(first cluster, first sector, sectors, sectors per cluster)`.
    pub closed spec fn spec_lookup(&self) -> Seq<(u32, u64, u64, u64)> {
        self.cluster_lookup@
    }

    /// Every explicit range lies inside the disk.
    pub closed spec fn wf(&self) -> bool {
        forall|i: int| 0 <= i < self.ranges@.len() ==> #[trigger] self.ranges@[i].start + self.ranges@[i].len
            <= self.total_sectors
    }

    /// The owner of `sector`.
    pub open spec fn spec_owner_of(&self, sector: u64) -> SectorOwner {
        owner_in(self.spec_total(), self.spec_ranges(), self.spec_lookup(), sector)
    }

    /// An empty map for a disk of `total_sectors` sectors.
    pub fn new(total_sectors: u64) -> (m: Self)
        ensures
            m.wf(),
            m.spec_total() == total_sectors,
            m.spec_ranges() == Seq::<OwnerRange>::empty(),
            m.spec_lookup() == Seq::<(u32, u64, u64, u64)>::empty(),
    {
        Self { total_sectors, cluster_lookup: Vec::new(), ranges: Vec::new() }
    }

    /// Registers cluster `cluster` as occupying `sectors` sectors from `start_sector`.
    pub fn register_cluster(&mut self, cluster: u32, start_sector: u64, sectors: u64)
        requires
            old(self).wf(),
        ensures
            final(self).wf(),
            final(self).spec_total() == old(self).spec_total(),
            final(self).spec_ranges() == old(self).spec_ranges(),
            final(self).spec_lookup() == old(self).spec_lookup().push((cluster, start_sector, sectors, sectors)),
    {
        self.cluster_lookup.push((cluster, start_sector, sectors, sectors));
    }

    /// Registers `cluster_count` consecutive clusters from `first_cluster`, each of
    /// `sectors_per_cluster` sectors, laid out from `first_sector`.
    pub fn register_cluster_range(&mut self, first_cluster: u32, first_sector: u64, cluster_count: u32, sectors_per_cluster: u64)
        requires
            old(self).wf(),
            cluster_count * sectors_per_cluster <= u64::MAX,
        ensures
            final(self).wf(),
            final(self).spec_total() == old(self).spec_total(),
            final(self).spec_ranges() == old(self).spec_ranges(),
            final(self).spec_lookup() == old(self).spec_lookup().push(
                (first_cluster, first_sector, (cluster_count * sectors_per_cluster) as u64, sectors_per_cluster),
            ),
    {
        let len: u64 = cluster_count as u64 * sectors_per_cluster;
        self.cluster_lookup.push((first_cluster, first_sector, len, sectors_per_cluster));
    }

    /// Marks `len` sectors from `start` as owned by `owner`. An empty range changes
    /// nothing; a range that overflows or leaves the disk fails with `InvalidInput`.
    pub fn mark_range(&mut self, start: u64, len: u64, owner: SectorOwner) -> (r: Result<(), IoError>)
        requires
            old(self).wf(),
        ensures
            final(self).wf(),
            final(self).spec_total() == old(self).spec_total(),
            final(self).spec_lookup() == old(self).spec_lookup(),
            len == 0 ==> r is Ok && final(self).spec_ranges() == old(self).spec_ranges(),
            len > 0 && start + len <= old(self).spec_total() ==> r is Ok && final(self).spec_ranges()
                == old(self).spec_ranges().push(OwnerRange { start, len, owner }),
            len > 0 && start + len > old(self).spec_total() ==> (r matches Err(e) && e.kind == ErrorKind::InvalidInput)
                && final(self).spec_ranges() == old(self).spec_ranges(),
    {
        if len == 0 {
            return Ok(());
        }
        if start > u64::MAX - len {
            return Err(io_error(ErrorKind::InvalidInput, "sector range overflow"));
        }
        let end = start + len;
        if end > self.total_sectors {
            return Err(io_error(ErrorKind::InvalidInput, "sector range out of virtual volume"));
        }
        self.ranges.push(OwnerRange { start, len, owner });
        Ok(())
    }

    /// The owner of `sector`.
    pub fn owner_of(&self, sector: u64) -> (o: SectorOwner)
        requires
            self.wf(),
        ensures
            o == self.spec_owner_of(sector),
    {
        if sector >= self.total_sectors {
            return SectorOwner::OutOfRange;
        }
        let mut n: usize = self.ranges.len();
        while n > 0
            invariant
                n <= self.ranges@.len(),
                self.wf(),
                last_range_owner(self.ranges@, sector as int, self.ranges@.len() as int)
                    == last_range_owner(self.ranges@, sector as int, n as int),
            decreases n,
        {
            let r = self.ranges[n - 1];
            assert(r.start + r.len <= self.total_sectors);
            if sector >= r.start && sector < r.start + r.len {
                return resolve(r.owner, sector);
            }
            n = n - 1;
        }
        assert(last_range_owner(self.ranges@, sector as int, self.ranges@.len() as int) is None);
        let mut i: usize = 0;
        while i < self.cluster_lookup.len()
            invariant
                i <= self.cluster_lookup@.len(),
                sector < self.total_sectors,
                last_range_owner(self.ranges@, sector as int, self.ranges@.len() as int) is None,
                lookup_cluster(self.cluster_lookup@, sector as int, 0)
                    == lookup_cluster(self.cluster_lookup@, sector as int, i as int),
            decreases self.cluster_lookup@.len() - i,
        {
            let (first, start, len, spc) = self.cluster_lookup[i];
            if spc > 0 && sector >= start && sector - start < len {
                let idx: u64 = (sector - start) / spc;
                if idx <= (u32::MAX - first) as u64 {
                    let cluster = first + idx as u32;
                    assert(lookup_cluster(self.cluster_lookup@, sector as int, i as int) == Some(cluster));
                    return SectorOwner::FreeCluster { cluster };
                }
            }
            i = i + 1;
        }
        SectorOwner::Reserved
    }

    /// The explicit ranges `(start, len, owner)`, oldest first.
    pub fn explicit_ranges(&self) -> (v: Vec<(u64, u64, SectorOwner)>)
        ensures
            v@.len() == self.spec_ranges().len(),
            forall|i: int| 0 <= i < v@.len() ==> #[trigger] v@[i] == (self.spec_ranges()[i].start,
                self.spec_ranges()[i].len, self.spec_ranges()[i].owner),
    {
        let mut v: Vec<(u64, u64, SectorOwner)> = Vec::new();
        let mut i: usize = 0;
        while i < self.ranges.len()
            invariant
                i <= self.ranges@.len(),
                v@.len() == i,
                forall|k: int| 0 <= k < i ==> #[trigger] v@[k] == (self.ranges@[k].start, self.ranges@[k].len,
                    self.ranges@[k].owner),
            decreases self.ranges@.len() - i,
        {
            let r = self.ranges[i];
            v.push((r.start, r.len, r.owner));
            i = i + 1;
        }
        v
    }
}

fn resolve(owner: SectorOwner, sector: u64) -> (o: SectorOwner)
    ensures
        o == resolve_owner(owner, sector as int),
{
    match owner {
        SectorOwner::FreeClusterRange { first_cluster, first_sector, sectors_per_cluster } => {
            if sectors_per_cluster > 0 && sector >= first_sector {
                let idx: u64 = (sector - first_sector) / sectors_per_cluster;
                if idx <= (u32::MAX - first_cluster) as u64 {
                    SectorOwner::FreeCluster { cluster: first_cluster + idx as u32 }
                } else {
                    owner
                }
            } else {
                owner
            }
        },
        _ => owner,
    }
}

} // verus!
