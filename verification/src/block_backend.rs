//! Outcome of a block write as the block device layer sees it.
use vstd::prelude::*;
use crate::error::IoError;

verus! {

/// Outcome of a write handed to the block backend.
#[derive(Debug, Clone, PartialEq, Eq)]
pub enum BlockWriteOutcome {
    /// The write was committed.
    Committed,
    /// The write stood for a policy rejection; the backend restored the canonical
    /// metadata.
    PolicyRejectedAndRestored { reason: String },
}

impl BlockWriteOutcome {
    /// Whether the block device reports the write as successful: both a commit and
    /// a policy rejection that was restored count as success.
    pub fn is_success_for_block_device(&self) -> (r: bool)
        ensures
            r == (self is Committed || self is PolicyRejectedAndRestored),
    {
        match self {
            BlockWriteOutcome::Committed => true,
            BlockWriteOutcome::PolicyRejectedAndRestored { .. } => true,
        }
    }
}

/// A block device read and written at byte offsets, for the NBD layer. A
/// write reports whether it was committed or stood for a policy rejection
/// that the backend absorbed; device failures, corrupt data, out-of-range
/// access and read-only refusals are errors.
pub trait BlockBackend: Send + Sync + 'static {
    /// The `len` bytes at `offset`.
    fn read_at(&self, offset: u64, len: usize) -> Result<Vec<u8>, IoError>;

    /// Writes `data` at `offset`.
    fn write_at(&self, offset: u64, data: &[u8]) -> Result<BlockWriteOutcome, IoError>;

    /// Makes the writes so far durable.
    fn flush(&self) -> Result<(), IoError>;

    /// Flushes before the backend goes away.
    fn shutdown(&self) -> Result<(), IoError> {
        self.flush()
    }
}

} // verus!
