//! Virtual exFAT volume.
use vstd::prelude::*;

pub mod allocator;
pub mod bitmap;
pub mod bitmap_state;
pub mod boot;
pub mod dir_entry;
pub mod diff;
pub mod dir_snapshot;
pub mod directory_parser;
pub mod directory_rewrite;
pub mod directory_store;
pub mod fat;
pub mod fat_state;
pub mod metadata_overlay;
pub mod metadata_renderer;
pub mod metadata_state;
pub mod policy_rejection;
pub mod read_plan;
pub mod runtime_state;
pub mod sector_owner;
pub mod transaction;
pub mod transaction_resolver;
pub mod upcase;
pub mod volume;
pub mod volume_plan;
pub mod write_interpreter;

verus! {
} // verus!
