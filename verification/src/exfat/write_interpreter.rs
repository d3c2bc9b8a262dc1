//! Interpretation of sector writes by the owner of the written sector.
use vstd::prelude::*;
use crate::error::{io_error, ErrorKind, IoError};
use crate::exfat::sector_owner::SectorOwner;
use crate::exfat::transaction::{PendingTransaction, TransactionWrite};

verus! {

broadcast use vstd::std_specs::vec::group_vec_axioms;

/// The kind of transaction write a sector owner's writes are recorded as.
#[derive(Debug, Clone, Copy, PartialEq, Eq, Structural)]
pub enum WriteClass {
    Fat,
    Bitmap,
    Directory,
    FileData,
    FreeCluster,
}

/// How a write to a sector of `owner` is recorded; `None` when it is refused.
pub open spec fn write_class(owner: SectorOwner) -> Option<WriteClass> {
    match owner {
        SectorOwner::Fat => Some(WriteClass::Fat),
        SectorOwner::AllocationBitmap => Some(WriteClass::Bitmap),
        SectorOwner::RootDirectory | SectorOwner::DirectoryData { .. } => Some(WriteClass::Directory),
        SectorOwner::FileData { .. } | SectorOwner::FileDataRange { .. }
        | SectorOwner::AllocatedZero { .. } => Some(WriteClass::FileData),
        SectorOwner::FreeCluster { .. } | SectorOwner::FreeClusterRange { .. } => Some(WriteClass::FreeCluster),
        _ => None,
    }
}

/// The error kind of a refused write: unknown owners give `InvalidData`, every
/// protected region `PermissionDenied`.
pub open spec fn refusal_kind(owner: SectorOwner) -> ErrorKind {
    if owner is Unknown {
        ErrorKind::InvalidData
    } else {
        ErrorKind::PermissionDenied
    }
}

/// `w` is the write of class `c` to `sector` of `owner` carrying `data`.
pub open spec fn is_recorded_write(
    w: TransactionWrite,
    c: WriteClass,
    sector: u64,
    owner: SectorOwner,
    data: Seq<u8>,
) -> bool {
    match w {
        TransactionWrite::Fat { sector: s, data: d } => c == WriteClass::Fat && s == sector && d@ == data,
        TransactionWrite::Bitmap { sector: s, data: d } => c == WriteClass::Bitmap && s == sector && d@
            == data,
        TransactionWrite::Directory { sector: s, owner: o, data: d } => c == WriteClass::Directory && s
            == sector && o == owner && d@ == data,
        TransactionWrite::FileData { sector: s, owner: o, data: d } => c == WriteClass::FileData && s
            == sector && o == owner && d@ == data,
        TransactionWrite::FreeCluster { sector: s, owner: o, data: d } => c == WriteClass::FreeCluster
            && s == sector && o == owner && d@ == data,
    }
}

/// Turns sector writes into transaction writes.
#[derive(Debug, Clone, Copy)]
pub struct WriteInterpreter;

impl WriteInterpreter {
    /// The interpreter.
    pub fn new() -> (r: Self) {
        WriteInterpreter
    }

    /// Records a write of `data` to `sector`, owned by `owner`, in `tx`; writes to
    /// protected regions and to sectors of unknown owner are refused.
    pub fn record_sector_write(
        &self,
        tx: &mut PendingTransaction,
        sector: u64,
        owner: SectorOwner,
        data: &[u8],
    ) -> (r: Result<(), IoError>)
        ensures
            final(tx).spec_id() == old(tx).spec_id(),
            match write_class(owner) {
                None => r is Err && r->Err_0.kind == refusal_kind(owner) && final(tx)@ == old(tx)@,
                Some(c) => r is Ok && final(tx)@.len() == old(tx)@.len() + 1 && final(tx)@.take(
                    old(tx)@.len() as int,
                ) == old(tx)@ && is_recorded_write(
                    final(tx)@.last(),
                    c,
                    sector,
                    owner,
                    data@,
                ),
            },
    {
        let write = match owner {
            SectorOwner::Mbr
            | SectorOwner::BootRegion
            | SectorOwner::BackupBootRegion
            | SectorOwner::Reserved
            | SectorOwner::OutOfRange => {
                return Err(io_error(ErrorKind::PermissionDenied, "禁止修改 exFAT 关键区域"));
            },
            SectorOwner::UpcaseTable => {
                return Err(io_error(ErrorKind::PermissionDenied, "禁止修改 exFAT upcase table"));
            },
            SectorOwner::Unknown => {
                return Err(io_error(ErrorKind::InvalidData, "无法解释未知 sector owner 的写入"));
            },
            SectorOwner::Fat => TransactionWrite::Fat { sector, data: vstd::slice::slice_to_vec(data) },
            SectorOwner::AllocationBitmap => TransactionWrite::Bitmap { sector, data: vstd::slice::slice_to_vec(data) },
            SectorOwner::RootDirectory | SectorOwner::DirectoryData { .. } => {
                TransactionWrite::Directory { sector, owner, data: vstd::slice::slice_to_vec(data) }
            },
            SectorOwner::FileData { .. } | SectorOwner::FileDataRange { .. }
            | SectorOwner::AllocatedZero { .. } => {
                TransactionWrite::FileData { sector, owner, data: vstd::slice::slice_to_vec(data) }
            },
            SectorOwner::FreeCluster { .. } | SectorOwner::FreeClusterRange { .. } => {
                TransactionWrite::FreeCluster { sector, owner, data: vstd::slice::slice_to_vec(data) }
            },
        };
        tx.record_write(write);
        Ok(())
    }
}

} // verus!
