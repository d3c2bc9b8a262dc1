//! Error values of the library.
use vstd::prelude::*;

verus! {

/// What kind of failure an `IoError` reports.
#[derive(Debug, Clone, Copy, PartialEq, Eq, Structural)]
pub enum ErrorKind {
    NotFound,
    PermissionDenied,
    AlreadyExists,
    InvalidInput,
    InvalidData,
    UnexpectedEof,
    Unsupported,
    TimedOut,
    Interrupted,
    WriteZero,
    Other,
}

/// A failed operation: its kind and a human-readable message.
#[derive(Debug)]
pub struct IoError {
    pub kind: ErrorKind,
    pub message: String,
    /// The policy rejection this error carries, when it is a recoverable one.
    pub rejection: Option<RecoverablePolicyRejection>,
}

/// A write refused because it would modify a file shown as the blocked
/// placeholder; the session recovers from it.
#[derive(Debug, Clone, PartialEq, Eq)]
pub struct RecoverablePolicyRejection {
    pub virtual_path: String,
    pub operation: String,
    pub reason: String,
}

/// Creates an error of `kind` with the message `msg`.
pub fn io_error(kind: ErrorKind, msg: &str) -> (e: IoError)
    ensures
        e.kind == kind,
        e.message@ == msg@,
        e.rejection is None,
{
    IoError { kind, message: msg.to_owned(), rejection: None }
}

/// Error of the file access engine as a whole.
#[derive(Debug)]
pub enum FileAccessError {
    /// Building the file tree failed.
    TreeBuildFailed(String),
    /// Building the exFAT volume failed.
    VolumeBuildFailed(String),
    /// Starting NBD failed.
    NbdFailed(String),
    /// Binding the OTG gadget failed.
    GadgetFailed(String),
    /// An I/O operation failed.
    Io(IoError),
    /// Writing back failed.
    WriteBackFailed(String),
    /// Mounting failed.
    MountFailed(String),
    /// Unmounting failed.
    UmountFailed(String),
    /// Startup recovery failed.
    RecoveryFailed(String),
}

} // verus!
