//! Retry rule for NBD fd I/O.
use vstd::prelude::*;
use crate::error::{ErrorKind, IoError};

verus! {

/// Whether a failed fd read or write is retried: only when it was interrupted.
pub fn is_retryable_io_error(error: &IoError) -> (r: bool)
    ensures
        r == (error.kind == ErrorKind::Interrupted),
{
    error.kind == ErrorKind::Interrupted
}

} // verus!
