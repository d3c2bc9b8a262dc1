//! Committed metadata sectors laid over the virtual exFAT image.
use vstd::prelude::*;
use std::collections::HashMap;
use crate::bytes::zeros;
use crate::error::{io_error, ErrorKind, IoError};
use crate::exfat::transaction::CommittedMetadataUpdate;
use crate::layout::SECTOR_SIZE;

verus! {

broadcast use vstd::std_specs::hash::group_hash_axioms;

/// Sector contents that replace the generated metadata.
#[derive(Debug)]
pub struct MetadataOverlay {
    sectors: HashMap<u64, Vec<u8>>,
}

/// `data` cut or zero-padded to one sector.
pub open spec fn padded_sector(data: Seq<u8>) -> Seq<u8> {
    if data.len() >= SECTOR_SIZE {
        data.take(SECTOR_SIZE as int)
    } else {
        data + zeros((SECTOR_SIZE - data.len()) as nat)
    }
}

/// Whether an update carries exactly one sector.
pub open spec fn update_is_sector(u: CommittedMetadataUpdate) -> bool {
    match u {
        CommittedMetadataUpdate::Sector { data, .. } => data@.len() == SECTOR_SIZE,
    }
}

/// `m` with the updates `us` applied in order.
pub open spec fn applied(m: Map<u64, Seq<u8>>, us: Seq<CommittedMetadataUpdate>) -> Map<u64, Seq<u8>>
    decreases us.len(),
{
    if us.len() == 0 {
        m
    } else {
        match us.last() {
            CommittedMetadataUpdate::Sector { sector, data } => applied(m, us.drop_last()).insert(
                sector,
                data@,
            ),
        }
    }
}

impl MetadataOverlay {
    /// The overlaid sectors.
    pub closed spec fn view(&self) -> Map<u64, Seq<u8>> {
        self.sectors@.map_values(|v: Vec<u8>| v@)
    }

    /// An empty overlay.
    pub fn new() -> (o: Self)
        ensures
            o@ == Map::<u64, Seq<u8>>::empty(),
    {
        let o = MetadataOverlay { sectors: HashMap::new() };
        assert(o@ =~= Map::<u64, Seq<u8>>::empty());
        o
    }

    /// The overlaid content of `sector`, if any.
    pub fn read_sector(&self, sector: u64) -> (r: Option<&[u8]>)
        ensures
            match r {
                Some(d) => self@.contains_key(sector) && d@ == self@[sector],
                None => !self@.contains_key(sector),
            },
    {
        match self.sectors.get(&sector) {
            Some(v) => Some(v.as_slice()),
            None => None,
        }
    }

    /// Overlays `sector` with `data`, cut or zero-padded to one sector.
    pub fn insert_sector(&mut self, sector: u64, data: &[u8])
        ensures
            final(self)@ == old(self)@.insert(sector, padded_sector(data@)),
    {
        let mut out: Vec<u8> = Vec::new();
        let mut i: usize = 0;
        while i < 512
            invariant
                i <= 512,
                out@.len() == i,
                forall|k: int| 0 <= k < i ==> #[trigger] out@[k] == padded_sector(data@)[k],
            decreases 512 - i,
        {
            let b = if i < data.len() { data[i] } else { 0u8 };
            out.push(b);
            i = i + 1;
        }
        assert(out@ =~= padded_sector(data@));
        self.sectors.insert(sector, out);
        assert(self@ =~= old(self)@.insert(sector, padded_sector(data@)));
    }

    /// Applies committed updates in order. An update that is not exactly one
    /// sector fails with `InvalidData`; the updates before it stay applied.
    pub fn apply_committed(&mut self, updates: &[CommittedMetadataUpdate]) -> (r: Result<(), IoError>)
        ensures
            (forall|i: int| 0 <= i < updates@.len() ==> update_is_sector(#[trigger] updates@[i])) ==> r is Ok
                && final(self)@ == applied(old(self)@, updates@),
            r is Ok ==> forall|i: int| 0 <= i < updates@.len() ==> update_is_sector(#[trigger] updates@[i]),
            r is Err ==> r->Err_0.kind == ErrorKind::InvalidData && exists|k: int|
                0 <= k < updates@.len() && !update_is_sector(#[trigger] updates@[k]) && (forall|j: int|
                    0 <= j < k ==> update_is_sector(#[trigger] updates@[j])) && final(self)@ == applied(
                    old(self)@,
                    updates@.take(k),
                ),
    {
        let mut i: usize = 0;
        while i < updates.len()
            invariant
                i <= updates@.len(),
                self@ == applied(old(self)@, updates@.take(i as int)),
                forall|j: int| 0 <= j < i ==> update_is_sector(#[trigger] updates@[j]),
            decreases updates@.len() - i,
        {
            match &updates[i] {
                CommittedMetadataUpdate::Sector { sector, data } => {
                    if data.len() != 512 {
                        return Err(io_error(ErrorKind::InvalidData,
                            "committed metadata sector must be exactly one sector"));
                    }
                    assert(updates@.take(i + 1).drop_last() =~= updates@.take(i as int));
                    self.sectors.insert(*sector, data.clone());
                    assert(self@ =~= applied(old(self)@, updates@.take(i + 1)));
                },
            }
            i = i + 1;
        }
        assert(updates@.take(updates@.len() as int) =~= updates@);
        Ok(())
    }

    /// Applies one committed sector; `InvalidData` when `data` is not exactly
    /// one sector.
    pub fn apply_committed_sector(&mut self, sector: u64, data: &[u8]) -> (r: Result<(), IoError>)
        ensures
            data@.len() == SECTOR_SIZE ==> r is Ok && final(self)@ == old(self)@.insert(sector, data@),
            data@.len() != SECTOR_SIZE ==> r is Err && r->Err_0.kind == ErrorKind::InvalidData
                && final(self)@ == old(self)@,
    {
        if data.len() != 512 {
            return Err(io_error(ErrorKind::InvalidData, "committed metadata sector must be exactly one sector"));
        }
        self.sectors.insert(sector, vstd::slice::slice_to_vec(data));
        assert(self@ =~= old(self)@.insert(sector, data@));
        Ok(())
    }
}

} // verus!
