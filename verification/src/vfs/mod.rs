//! Model of the controlled virtual file system.
use vstd::prelude::*;

pub mod committer;
pub mod index;
pub mod journal;
pub mod mutation;
pub mod node;
pub mod operation_guard;
pub mod path;

verus! {
} // verus!
