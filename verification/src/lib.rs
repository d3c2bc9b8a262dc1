use vstd::prelude::*;

pub mod autorun;
pub mod block_backend;
pub mod bytes;
pub mod error;
pub mod exec_detect;
pub mod exfat;
pub mod file_tree;
pub mod gadget;
pub mod gadget_bootstrap;
pub mod layout;
pub mod nbd;
pub mod policy;
pub mod publisher;
pub mod raw_mount;
pub mod session;
pub mod startup_recovery;
pub mod storage_pipeline;
pub mod strings;
pub mod text;
pub mod types;
pub mod vfs;
pub mod write_back;

verus! {
} // verus!
