//! Admission checks of file system operations: the read-only permission and
//! the file type blacklist. Whether an existing node is a blocked placeholder
//! is the runtime state's own check.
use vstd::prelude::*;
use crate::error::{io_error, ErrorKind, IoError};
use crate::strings::{ascii_lower_seq, chars_of, is_suffix, seq_ends_with, to_ascii_lower};
use crate::types::{ExecFileType, PolicySnapshot};

verus! {

/// A file system operation to admit.
#[derive(Debug)]
pub enum FsOperation {
    CreateFile { virtual_path: String },
    CreateDir { virtual_path: String },
    WriteFile { virtual_path: String },
    WriteExecutable { virtual_path: String, exec_type: ExecFileType },
    Truncate { virtual_path: String },
    Rename { from: String, to: String },
    Delete { virtual_path: String },
}

/// Admits or refuses operations under a policy snapshot.
pub struct OperationGuard {
    snapshot: PolicySnapshot,
}

/// Some blacklisted extension ends the lower-cased `path`.
pub open spec fn path_blacklisted(snap: PolicySnapshot, path: Seq<char>) -> bool {
    snap.file_type_blacklist_enabled && exists|i: int|
        0 <= i < snap.blacklist_extensions@.len() && is_suffix(
            (#[trigger] snap.blacklist_extensions@[i])@,
            ascii_lower_seq(path),
        )
}

/// Whether the guard refuses `op` under `snap`.
pub open spec fn spec_refuses(snap: PolicySnapshot, op: FsOperation) -> bool {
    snap.permission == 0 || match op {
        FsOperation::CreateFile { virtual_path } => path_blacklisted(snap, virtual_path@),
        FsOperation::CreateDir { virtual_path } => path_blacklisted(snap, virtual_path@),
        FsOperation::WriteFile { virtual_path } => path_blacklisted(snap, virtual_path@),
        FsOperation::Truncate { virtual_path } => path_blacklisted(snap, virtual_path@),
        FsOperation::Rename { to, .. } => path_blacklisted(snap, to@),
        FsOperation::Delete { virtual_path } => path_blacklisted(snap, virtual_path@),
        FsOperation::WriteExecutable { virtual_path, .. } => snap.exec_control_enabled || path_blacklisted(
            snap,
            virtual_path@,
        ),
    }
}

impl OperationGuard {
    pub closed spec fn spec_snapshot(&self) -> PolicySnapshot {
        self.snapshot
    }

    /// A guard for `snapshot`.
    pub fn new(snapshot: PolicySnapshot) -> (g: Self)
        ensures
            g.spec_snapshot() == snapshot,
    {
        OperationGuard { snapshot }
    }

    /// Admits `op`, or refuses it with `PermissionDenied`: everything under a
    /// read-only permission, executables under executable control, and paths
    /// that end in a blacklisted extension (compared in ASCII lower case).
    pub fn check(&self, op: &FsOperation) -> (r: Result<(), IoError>)
        ensures
            r is Err <==> spec_refuses(self.spec_snapshot(), *op),
            r matches Err(e) ==> e.kind == ErrorKind::PermissionDenied && e.rejection is None,
    {
        if self.snapshot.permission == 0 {
            return Err(io_error(ErrorKind::PermissionDenied, "read-only permission forbids writes"));
        }
        match op {
            FsOperation::CreateFile { virtual_path } => self.check_path(virtual_path.as_str()),
            FsOperation::CreateDir { virtual_path } => self.check_path(virtual_path.as_str()),
            FsOperation::WriteFile { virtual_path } => self.check_path(virtual_path.as_str()),
            FsOperation::Truncate { virtual_path } => self.check_path(virtual_path.as_str()),
            FsOperation::Rename { to, .. } => self.check_path(to.as_str()),
            FsOperation::Delete { virtual_path } => self.check_path(virtual_path.as_str()),
            FsOperation::WriteExecutable { virtual_path, .. } => {
                if self.snapshot.exec_control_enabled {
                    return Err(io_error(ErrorKind::PermissionDenied, "executable files may not be written"));
                }
                self.check_path(virtual_path.as_str())
            },
        }
    }

    /// Refuses a path that ends in a blacklisted extension.
    fn check_path(&self, virtual_path: &str) -> (r: Result<(), IoError>)
        ensures
            r is Err <==> path_blacklisted(self.spec_snapshot(), virtual_path@),
            r matches Err(e) ==> e.kind == ErrorKind::PermissionDenied && e.rejection is None,
    {
        if !self.snapshot.file_type_blacklist_enabled {
            return Ok(());
        }
        let pc = chars_of(virtual_path);
        let lower = to_ascii_lower(pc.as_slice());
        let exts = &self.snapshot.blacklist_extensions;
        let mut i: usize = 0;
        while i < exts.len()
            invariant
                i <= exts@.len(),
                exts == self.snapshot.blacklist_extensions,
                self.snapshot.file_type_blacklist_enabled,
                lower@ == ascii_lower_seq(virtual_path@),
                forall|k: int| 0 <= k < i ==> !is_suffix((#[trigger] exts@[k])@, ascii_lower_seq(virtual_path@)),
            decreases exts@.len() - i,
        {
            let ec = chars_of(exts[i].as_str());
            if seq_ends_with(lower.as_slice(), ec.as_slice()) {
                assert(is_suffix(self.snapshot.blacklist_extensions@[i as int]@, ascii_lower_seq(virtual_path@)));
                assert(path_blacklisted(self.snapshot, virtual_path@));
                return Err(io_error(ErrorKind::PermissionDenied, "file type blacklist forbids access"));
            }
            i = i + 1;
        }
        Ok(())
    }
}

/// With write permission, a rename is refused exactly when the blacklist is
/// enabled and some blacklisted extension ends its target path, lower-cased;
/// its source path plays no part.
pub proof fn lemma_rename_refused_by_target(snap: PolicySnapshot, from: String, to: String)
    requires
        snap.permission != 0,
    ensures
        spec_refuses(snap, FsOperation::Rename { from, to }) <==> (snap.file_type_blacklist_enabled && exists|i: int|
            0 <= i < snap.blacklist_extensions@.len() && is_suffix(
                (#[trigger] snap.blacklist_extensions@[i])@,
                ascii_lower_seq(to@),
            )),
{
}

/// Under read-only permission every operation is refused. With write
/// permission, an operation on a path (a creation, write, truncation or
/// delete) is refused exactly when the blacklist is enabled and a blacklisted
/// extension ends the lower-cased path; writing an executable is refused also
/// whenever executable control is on.
pub proof fn lemma_guard_refusals(snap: PolicySnapshot, op: FsOperation)
    ensures
        snap.permission == 0 ==> spec_refuses(snap, op),
        snap.permission != 0 ==> match op {
            FsOperation::CreateFile { virtual_path } => spec_refuses(snap, op) == refused_path(snap, virtual_path@),
            FsOperation::CreateDir { virtual_path } => spec_refuses(snap, op) == refused_path(snap, virtual_path@),
            FsOperation::WriteFile { virtual_path } => spec_refuses(snap, op) == refused_path(snap, virtual_path@),
            FsOperation::Truncate { virtual_path } => spec_refuses(snap, op) == refused_path(snap, virtual_path@),
            FsOperation::Delete { virtual_path } => spec_refuses(snap, op) == refused_path(snap, virtual_path@),
            FsOperation::Rename { to, .. } => spec_refuses(snap, op) == refused_path(snap, to@),
            FsOperation::WriteExecutable { virtual_path, .. } => spec_refuses(snap, op) == (snap.exec_control_enabled
                || refused_path(snap, virtual_path@)),
        },
{
}

/// The blacklist is enabled and one of its extensions ends the lower-cased
/// `path`.
pub open spec fn refused_path(snap: PolicySnapshot, path: Seq<char>) -> bool {
    snap.file_type_blacklist_enabled && exists|i: int|
        0 <= i < snap.blacklist_extensions@.len() && is_suffix((#[trigger] snap.blacklist_extensions@[i])@, ascii_lower_seq(path))
}

} // verus!
