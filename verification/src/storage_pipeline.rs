//! The storage session's decisions: its id, whether a session may start, and
//! the stages of its pipeline (mount, scan, media build, publish) with the
//! runtime updates and cleanups each outcome calls for. The caller performs
//! each stage's work and reports its outcome.
use vstd::prelude::*;
use crate::session::{NbdIndexPool, acquire_step, release_step};
use crate::strings::str_eq;
use crate::strings::{hex_fixed, hex_string};
use vstd::string::StringExecFns;
use vstd::string::StringSliceAdditionalSpecFns;

verus! {

/// The FNV-1a hash of `bytes`.
pub open spec fn fnv1a(bytes: Seq<u8>) -> u64
    decreases bytes.len(),
{
    if bytes.len() == 0 {
        0xcbf29ce484222325u64
    } else {
        vstd::wrapping::u64_specs::wrapping_mul(fnv1a(bytes.drop_last()) ^ (bytes.last() as u64), 0x100000001b3u64)
    }
}

/// The 64-bit FNV-1a hash of the bytes of `value`.
pub fn stable_hash64(value: &str) -> (h: u64)
    ensures
        h == fnv1a(value.spec_bytes()),
{
    let bytes = value.as_bytes();
    let mut hash: u64 = 0xcbf29ce484222325;
    let mut i: usize = 0;
    assert(bytes@.take(0) =~= Seq::<u8>::empty());
    while i < bytes.len()
        invariant
            i <= bytes@.len(),
            hash == fnv1a(bytes@.take(i as int)),
        decreases bytes@.len() - i,
    {
        assert(bytes@.take(i + 1).drop_last() =~= bytes@.take(i as int));
        assert(bytes@.take(i + 1).last() == bytes@[i as int]);
        hash = (hash ^ (bytes[i] as u64)).wrapping_mul(0x100000001b3);
        i = i + 1;
    }
    assert(bytes@.take(bytes@.len() as int) =~= bytes@);
    hash
}

/// The id of the session of the device at `parent_path`: `storage_` and 16
/// hexadecimal digits of the path's hash.
pub open spec fn session_id_spec(parent_path: &str) -> Seq<char> {
    seq!['s', 't', 'o', 'r', 'a', 'g', 'e', '_'] + hex_fixed(fnv1a(parent_path.spec_bytes()) as nat, 16)
}

/// The id of the session of the device at `parent_path`.
pub fn session_id(parent_path: &str) -> (r: String)
    ensures
        r@ == session_id_spec(parent_path),
{
    let h = stable_hash64(parent_path);
    let hex = hex_string(h, 16);
    let prefix = "storage_";
    proof {
        reveal_strlit("storage_");
    }
    let r = crate::exfat::policy_rejection::concat_str(prefix, hex.as_str());
    assert(prefix@ =~= seq!['s', 't', 'o', 'r', 'a', 'g', 'e', '_']);
    r
}

/// Where a session's partition is mounted: below the session mount base,
/// named by the session id (never by the device name).
pub open spec fn session_mount_path_spec(session_id: Seq<char>) -> Seq<char> {
    "/mnt/usb-control/raw/"@ + session_id
}

/// The mount point of the session `session_id`.
pub fn session_mount_path(session_id: &str) -> (r: String)
    ensures
        r@ == session_mount_path_spec(session_id@),
{
    crate::exfat::policy_rejection::concat_str("/mnt/usb-control/raw/", session_id)
}

/// Why a session may not start.
#[derive(Debug, PartialEq, Eq)]
pub enum StartRefusal {
    EmptyDevicePath,
    SessionActive,
    NbdPoolExhausted,
}

/// Decides whether a session may start: the device path must be given, no
/// session may be active (the gadget has one LUN), and an NBD index must be
/// free; the index is taken from the pool.
pub fn admit_session(dev_path_empty: bool, session_active: bool, pool: &mut NbdIndexPool) -> (r: Result<u32, StartRefusal>)
    requires
        old(pool).wf(),
    ensures
        final(pool).wf(),
        dev_path_empty ==> r == Err::<u32, StartRefusal>(StartRefusal::EmptyDevicePath),
        !dev_path_empty && session_active ==> r == Err::<u32, StartRefusal>(StartRefusal::SessionActive),
        !dev_path_empty && !session_active && old(pool).spec_available().len() == 0 ==> r == Err::<
            u32,
            StartRefusal,
        >(StartRefusal::NbdPoolExhausted),
        !dev_path_empty && !session_active && old(pool).spec_available().len() > 0 ==> r == Ok::<
            u32,
            StartRefusal,
        >(old(pool).spec_available().last()),
        r is Ok ==> final(pool).spec_available() == old(pool).spec_available().drop_last()
            && final(pool).spec_in_use() == old(pool).spec_in_use().insert(old(pool).spec_available().last()),
        r is Err ==> final(pool).spec_available() == old(pool).spec_available() && final(pool).spec_in_use()
            == old(pool).spec_in_use(),
{
    if dev_path_empty {
        return Err(StartRefusal::EmptyDevicePath);
    }
    if session_active {
        return Err(StartRefusal::SessionActive);
    }
    match pool.acquire() {
        Some(i) => Ok(i),
        None => Err(StartRefusal::NbdPoolExhausted),
    }
}

/// A stage of the storage pipeline.
#[derive(Debug, Clone, Copy, PartialEq, Eq, Structural)]
pub enum PipelineStage {
    Mount,
    RecordMount,
    Scan,
    MediaBuild,
    Publish,
    Finished,
}

/// The outcome of a stage's work.
#[derive(Debug)]
pub enum PipelineEvent {
    Mounted,
    MountFailed(String),
    MountRecorded { session_present: bool },
    Scanned,
    ScanFailed(String),
    MediaBuilt,
    MediaBuildFailed(String),
    Published { session_present: bool },
    PublishFailed(String),
    Cancelled,
}

/// The cleanup an outcome calls for.
#[derive(Debug, PartialEq, Eq)]
pub enum PipelineCleanup {
    Nothing,
    /// Forget the session and release its NBD index.
    RemoveFailedSession,
    /// Unmount, release the NBD index and mark the device removed for this reason.
    RollbackMount(String),
    /// Stop the publication, release the NBD index and mark the device removed
    /// for this reason.
    RollbackPublish(String),
    /// Remove the session and clean it up for this reason.
    CleanupSession(String),
}

/// An update of the device's runtime record.
#[derive(Debug, PartialEq, Eq)]
pub struct RuntimeUpdate {
    pub status: String,
    pub stage: String,
    pub fail_code: String,
    pub fail_reason: String,
}

/// What the pipeline does next: update the runtime record, clean up, and go
/// to the next stage.
#[derive(Debug)]
pub struct PipelineStep {
    pub update: Option<RuntimeUpdate>,
    pub cleanup: PipelineCleanup,
    pub next: PipelineStage,
}

/// Mathematical form of a runtime update.
pub open spec fn update_view(u: RuntimeUpdate) -> (Seq<char>, Seq<char>, Seq<char>, Seq<char>) {
    (u.status@, u.stage@, u.fail_code@, u.fail_reason@)
}

/// A runtime update of the given texts.
fn runtime_update(status: &str, stage: &str, fail_code: &str, fail_reason: &str) -> (u: RuntimeUpdate)
    ensures
        update_view(u) == (status@, stage@, fail_code@, fail_reason@),
{
    RuntimeUpdate {
        status: String::from_str(status),
        stage: String::from_str(stage),
        fail_code: String::from_str(fail_code),
        fail_reason: String::from_str(fail_reason),
    }
}

/// `u` updates the runtime record to these texts.
pub open spec fn updates_to(
    u: Option<RuntimeUpdate>,
    status: Seq<char>,
    stage: Seq<char>,
    fail_code: Seq<char>,
    fail_reason: Seq<char>,
) -> bool {
    &&& u is Some
    &&& update_view(u->0) == (status, stage, fail_code, fail_reason)
}

/// `c` removes the session and cleans it up for `reason`.
pub open spec fn cleans_up_session(c: PipelineCleanup, reason: Seq<char>) -> bool {
    &&& c is CleanupSession
    &&& c->CleanupSession_0@ == reason
}

/// The first step: enter the mount stage.
pub fn pipeline_start() -> (s: PipelineStep)
    ensures
        s.next == PipelineStage::Mount,
        s.cleanup == PipelineCleanup::Nothing,
        updates_to(s.update, "processing"@, "mount"@, ""@, ""@),
{
    PipelineStep {
        update: Some(runtime_update("processing", "mount", "", "")),
        cleanup: PipelineCleanup::Nothing,
        next: PipelineStage::Mount,
    }
}

/// The step after `event` in `stage`. A failure records the stage, its code and
/// the message, and cleans up; a cancellation cleans up; success moves on (the
/// mount is first recorded in the session, which may be gone by then); a
/// published session is mapped. Events that do not belong to the stage end
/// the pipeline without changes.
pub fn pipeline_next(stage: PipelineStage, event: PipelineEvent) -> (s: PipelineStep)
    ensures
        match (stage, event) {
            (PipelineStage::Mount, PipelineEvent::Mounted) => {
                &&& s.next == PipelineStage::RecordMount
                &&& s.update is None
                &&& s.cleanup == PipelineCleanup::Nothing
            },
            (PipelineStage::Mount, PipelineEvent::MountFailed(m)) => {
                &&& s.next == PipelineStage::Finished
                &&& s.cleanup == PipelineCleanup::RemoveFailedSession
                &&& updates_to(s.update, "failed"@, "mount"@, "mount_failed"@, m@)
            },
            (PipelineStage::RecordMount, PipelineEvent::MountRecorded { session_present }) => if session_present {
                &&& s.next == PipelineStage::Scan
                &&& s.cleanup == PipelineCleanup::Nothing
                &&& updates_to(s.update, "processing"@, "scan"@, ""@, ""@)
            } else {
                &&& s.next == PipelineStage::Finished
                &&& s.update is None
                &&& s.cleanup is RollbackMount
                &&& s.cleanup->RollbackMount_0@ == "session_removed_before_mount_record"@
            },
            (PipelineStage::Scan, PipelineEvent::Scanned) => {
                &&& s.next == PipelineStage::MediaBuild
                &&& s.cleanup == PipelineCleanup::Nothing
                &&& updates_to(s.update, "processing"@, "media_build"@, ""@, ""@)
            },
            (PipelineStage::Scan, PipelineEvent::ScanFailed(m)) => {
                &&& s.next == PipelineStage::Finished
                &&& cleans_up_session(s.cleanup, "scan_failed"@)
                &&& updates_to(s.update, "failed"@, "scan"@, "scan_failed"@, m@)
            },
            (PipelineStage::Scan, PipelineEvent::Cancelled) => {
                &&& s.next == PipelineStage::Finished
                &&& s.update is None
                &&& cleans_up_session(s.cleanup, "scan_cancelled"@)
            },
            (PipelineStage::MediaBuild, PipelineEvent::MediaBuilt) => {
                &&& s.next == PipelineStage::Publish
                &&& s.cleanup == PipelineCleanup::Nothing
                &&& updates_to(s.update, "processing"@, "publish"@, ""@, ""@)
            },
            (PipelineStage::MediaBuild, PipelineEvent::MediaBuildFailed(m)) => {
                &&& s.next == PipelineStage::Finished
                &&& cleans_up_session(s.cleanup, "media_build_failed"@)
                &&& updates_to(s.update, "failed"@, "media_build"@, "media_build_failed"@, m@)
            },
            (PipelineStage::Publish, PipelineEvent::Published { session_present }) => if session_present {
                &&& s.next == PipelineStage::Finished
                &&& s.cleanup == PipelineCleanup::Nothing
                &&& updates_to(s.update, "mapped"@, "publish"@, ""@, ""@)
            } else {
                &&& s.next == PipelineStage::Finished
                &&& s.update is None
                &&& s.cleanup is RollbackPublish
                &&& s.cleanup->RollbackPublish_0@ == "session_removed_after_publish"@
            },
            (PipelineStage::Publish, PipelineEvent::PublishFailed(m)) => {
                &&& s.next == PipelineStage::Finished
                &&& cleans_up_session(s.cleanup, "publish_failed"@)
                &&& updates_to(s.update, "failed"@, "publish"@, "publish_failed"@, m@)
            },
            (PipelineStage::Publish, PipelineEvent::Cancelled) => {
                &&& s.next == PipelineStage::Finished
                &&& s.update is None
                &&& cleans_up_session(s.cleanup, "publish_cancelled"@)
            },
            _ => {
                &&& s.next == PipelineStage::Finished
                &&& s.update is None
                &&& s.cleanup == PipelineCleanup::Nothing
            },
        },
{
    let done = PipelineStage::Finished;
    match (stage, event) {
        (PipelineStage::Mount, PipelineEvent::Mounted) => PipelineStep {
            update: None,
            cleanup: PipelineCleanup::Nothing,
            next: PipelineStage::RecordMount,
        },
        (PipelineStage::Mount, PipelineEvent::MountFailed(m)) => PipelineStep {
            update: Some(runtime_update("failed", "mount", "mount_failed", m.as_str())),
            cleanup: PipelineCleanup::RemoveFailedSession,
            next: done,
        },
        (PipelineStage::RecordMount, PipelineEvent::MountRecorded { session_present }) => if session_present {
            PipelineStep {
                update: Some(runtime_update("processing", "scan", "", "")),
                cleanup: PipelineCleanup::Nothing,
                next: PipelineStage::Scan,
            }
        } else {
            PipelineStep {
                update: None,
                cleanup: PipelineCleanup::RollbackMount(String::from_str("session_removed_before_mount_record")),
                next: done,
            }
        },
        (PipelineStage::Scan, PipelineEvent::Scanned) => PipelineStep {
            update: Some(runtime_update("processing", "media_build", "", "")),
            cleanup: PipelineCleanup::Nothing,
            next: PipelineStage::MediaBuild,
        },
        (PipelineStage::Scan, PipelineEvent::ScanFailed(m)) => PipelineStep {
            update: Some(runtime_update("failed", "scan", "scan_failed", m.as_str())),
            cleanup: PipelineCleanup::CleanupSession(String::from_str("scan_failed")),
            next: done,
        },
        (PipelineStage::Scan, PipelineEvent::Cancelled) => PipelineStep {
            update: None,
            cleanup: PipelineCleanup::CleanupSession(String::from_str("scan_cancelled")),
            next: done,
        },
        (PipelineStage::MediaBuild, PipelineEvent::MediaBuilt) => PipelineStep {
            update: Some(runtime_update("processing", "publish", "", "")),
            cleanup: PipelineCleanup::Nothing,
            next: PipelineStage::Publish,
        },
        (PipelineStage::MediaBuild, PipelineEvent::MediaBuildFailed(m)) => PipelineStep {
            update: Some(runtime_update("failed", "media_build", "media_build_failed", m.as_str())),
            cleanup: PipelineCleanup::CleanupSession(String::from_str("media_build_failed")),
            next: done,
        },
        (PipelineStage::Publish, PipelineEvent::Published { session_present }) => if session_present {
            PipelineStep { update: Some(runtime_update("mapped", "publish", "", "")), cleanup: PipelineCleanup::Nothing, next: done }
        } else {
            PipelineStep {
                update: None,
                cleanup: PipelineCleanup::RollbackPublish(String::from_str("session_removed_after_publish")),
                next: done,
            }
        },
        (PipelineStage::Publish, PipelineEvent::PublishFailed(m)) => PipelineStep {
            update: Some(runtime_update("failed", "publish", "publish_failed", m.as_str())),
            cleanup: PipelineCleanup::CleanupSession(String::from_str("publish_failed")),
            next: done,
        },
        (PipelineStage::Publish, PipelineEvent::Cancelled) => PipelineStep {
            update: None,
            cleanup: PipelineCleanup::CleanupSession(String::from_str("publish_cancelled")),
            next: done,
        },
        _ => PipelineStep { update: None, cleanup: PipelineCleanup::Nothing, next: done },
    }
}

/// A storage session holding the gadget's LUN.
#[derive(Debug)]
pub struct ActiveSession {
    pub parent_path: String,
    pub nbd_index: u32,
    pub mount_path: Option<String>,
    pub published: bool,
}

/// Mathematical form of a session: its parent path, NBD index, mount path and
/// whether it is published.
pub type SessionView = (Seq<char>, u32, Option<Seq<char>>, bool);

/// The view of a session.
pub open spec fn session_view(s: ActiveSession) -> SessionView {
    (s.parent_path@, s.nbd_index, match s.mount_path {
        Some(m) => Some(m@),
        None => None,
    }, s.published)
}

/// The view of an optional session.
pub open spec fn opt_session_view(s: Option<ActiveSession>) -> Option<SessionView> {
    match s {
        Some(x) => Some(session_view(x)),
        None => None,
    }
}

/// The session of `active` at `parent_path` leaves; any other stays.
pub open spec fn take_spec(active: Option<SessionView>, parent_path: Seq<char>) -> (
    Option<SessionView>,
    Option<SessionView>,
) {
    match active {
        Some(v) => if v.0 == parent_path {
            (Some(v), None)
        } else {
            (None, active)
        },
        None => (None, None),
    }
}

/// The sessions of the storage controller (at most one: the gadget has one
/// LUN) and the pool of NBD indices they draw from.
pub struct SessionTable {
    active: Option<ActiveSession>,
    pool: NbdIndexPool,
}

impl SessionTable {
    /// The active session.
    pub closed spec fn spec_active(&self) -> Option<SessionView> {
        opt_session_view(self.active)
    }

    /// The free NBD indices, the next one to be handed out last.
    pub closed spec fn spec_available(&self) -> Seq<u32> {
        self.pool.spec_available()
    }

    /// The NBD indices in use.
    pub closed spec fn spec_in_use(&self) -> Set<u32> {
        self.pool.spec_in_use()
    }

    /// The pool's invariant: no free index twice, no free index in use.
    pub closed spec fn wf(&self) -> bool {
        self.pool.wf()
    }

    /// A table with no session and the indices `0..pool_size` free.
    pub fn new(pool_size: u32) -> (t: Self)
        ensures
            t.wf(),
            t.spec_active() is None,
            t.spec_available() == crate::session::initial_indices(pool_size),
            t.spec_in_use() == Set::<u32>::empty(),
    {
        SessionTable { active: None, pool: NbdIndexPool::new(pool_size) }
    }

    /// Whether a session is active.
    pub fn has_active_storage(&self) -> (r: bool)
        ensures
            r == self.spec_active() is Some,
    {
        self.active.is_some()
    }

    /// Starts the session of the device at `parent_path`, found at `dev_path`:
    /// refused when `dev_path` is empty, when a session is active, or when no
    /// NBD index is free; else the session is recorded with the index it took.
    pub fn start(&mut self, dev_path: &str, parent_path: &str) -> (r: Result<u32, StartRefusal>)
        requires
            old(self).wf(),
        ensures
            final(self).wf(),
            dev_path@.len() == 0 ==> r == Err::<u32, StartRefusal>(StartRefusal::EmptyDevicePath),
            dev_path@.len() > 0 && old(self).spec_active() is Some ==> r == Err::<u32, StartRefusal>(
                StartRefusal::SessionActive,
            ),
            dev_path@.len() > 0 && old(self).spec_active() is None && old(self).spec_available().len() == 0 ==> r
                == Err::<u32, StartRefusal>(StartRefusal::NbdPoolExhausted),
            dev_path@.len() > 0 && old(self).spec_active() is None && old(self).spec_available().len() > 0 ==> r
                == Ok::<u32, StartRefusal>(old(self).spec_available().last()),
            r is Ok ==> final(self).spec_active() == Some((parent_path@, r->Ok_0, None::<Seq<char>>, false)),
            r is Ok ==> (Some(r->Ok_0), final(self).spec_available(), final(self).spec_in_use()) == acquire_step(
                old(self).spec_available(),
                old(self).spec_in_use(),
            ),
            r is Err ==> final(self).spec_active() == old(self).spec_active() && final(self).spec_available()
                == old(self).spec_available() && final(self).spec_in_use() == old(self).spec_in_use(),
    {
        let empty = dev_path.unicode_len() == 0;
        let active = self.active.is_some();
        match admit_session(empty, active, &mut self.pool) {
            Ok(i) => {
                self.active = Some(
                    ActiveSession {
                        parent_path: String::from_str(parent_path),
                        nbd_index: i,
                        mount_path: None,
                        published: false,
                    },
                );
                Ok(i)
            },
            Err(e) => Err(e),
        }
    }

    /// Whether the active session is the one at `parent_path`.
    fn holds(&self, parent_path: &str) -> (r: bool)
        ensures
            r == (self.spec_active() is Some && self.spec_active().unwrap().0 == parent_path@),
    {
        match &self.active {
            Some(s) => str_eq(s.parent_path.as_str(), parent_path),
            None => false,
        }
    }

    /// Records where the session at `parent_path` is mounted; false when it
    /// is gone.
    pub fn record_mount(&mut self, parent_path: &str, mount_path: String) -> (r: bool)
        requires
            old(self).wf(),
        ensures
            final(self).wf(),
            r == (old(self).spec_active() is Some && old(self).spec_active().unwrap().0 == parent_path@),
            r ==> final(self).spec_active() == Some(
                (
                    old(self).spec_active().unwrap().0,
                    old(self).spec_active().unwrap().1,
                    Some(mount_path@),
                    old(self).spec_active().unwrap().3,
                ),
            ),
            !r ==> final(self).spec_active() == old(self).spec_active(),
            final(self).spec_available() == old(self).spec_available(),
            final(self).spec_in_use() == old(self).spec_in_use(),
    {
        if !self.holds(parent_path) {
            return false;
        }
        match self.active.take() {
            Some(mut s) => {
                s.mount_path = Some(mount_path);
                self.active = Some(s);
                true
            },
            None => false,
        }
    }

    /// Records that the session at `parent_path` is published; false when it
    /// is gone.
    pub fn record_publish(&mut self, parent_path: &str) -> (r: bool)
        requires
            old(self).wf(),
        ensures
            final(self).wf(),
            r == (old(self).spec_active() is Some && old(self).spec_active().unwrap().0 == parent_path@),
            r ==> final(self).spec_active() == Some(
                (
                    old(self).spec_active().unwrap().0,
                    old(self).spec_active().unwrap().1,
                    old(self).spec_active().unwrap().2,
                    true,
                ),
            ),
            !r ==> final(self).spec_active() == old(self).spec_active(),
            final(self).spec_available() == old(self).spec_available(),
            final(self).spec_in_use() == old(self).spec_in_use(),
    {
        if !self.holds(parent_path) {
            return false;
        }
        match self.active.take() {
            Some(mut s) => {
                s.published = true;
                self.active = Some(s);
                true
            },
            None => false,
        }
    }

    /// Removes and returns the session at `parent_path`, if it is the active one.
    pub fn take_by_parent(&mut self, parent_path: &str) -> (r: Option<ActiveSession>)
        requires
            old(self).wf(),
        ensures
            final(self).wf(),
            (opt_session_view(r), final(self).spec_active()) == take_spec(old(self).spec_active(), parent_path@),
            final(self).spec_available() == old(self).spec_available(),
            final(self).spec_in_use() == old(self).spec_in_use(),
    {
        if self.holds(parent_path) {
            self.active.take()
        } else {
            None
        }
    }

    /// Removes and returns every session.
    pub fn take_all(&mut self) -> (r: Vec<ActiveSession>)
        requires
            old(self).wf(),
        ensures
            final(self).wf(),
            final(self).spec_active() is None,
            r@.len() == (if old(self).spec_active() is Some { 1int } else { 0 }),
            r@.len() == 1 ==> Some(session_view(r@[0])) == old(self).spec_active(),
            final(self).spec_available() == old(self).spec_available(),
            final(self).spec_in_use() == old(self).spec_in_use(),
    {
        let mut out: Vec<ActiveSession> = Vec::new();
        match self.active.take() {
            Some(s) => out.push(s),
            None => {},
        }
        out
    }

    /// Returns `nbd_index` to the pool.
    pub fn release_index(&mut self, nbd_index: u32)
        requires
            old(self).wf(),
        ensures
            final(self).wf(),
            final(self).spec_active() == old(self).spec_active(),
            (final(self).spec_available(), final(self).spec_in_use()) == release_step(
                old(self).spec_available(),
                old(self).spec_in_use(),
                nbd_index,
            ),
    {
        self.pool.release(nbd_index);
    }

    /// After a failed mount: forgets the session at `parent_path` and returns
    /// its NBD index to the pool.
    pub fn remove_failed(&mut self, parent_path: &str, nbd_index: u32)
        requires
            old(self).wf(),
        ensures
            final(self).wf(),
            final(self).spec_active() == take_spec(old(self).spec_active(), parent_path@).1,
            (final(self).spec_available(), final(self).spec_in_use()) == release_step(
                old(self).spec_available(),
                old(self).spec_in_use(),
                nbd_index,
            ),
    {
        let _ = self.take_by_parent(parent_path);
        self.release_index(nbd_index);
    }
}

/// Whether a cleanup unmounts the session's mount point, given whether the
/// mount target was found (`None` when looking failed): only a target known
/// to be absent is left alone.
pub fn should_unmount(target_exists: Option<bool>) -> (r: bool)
    ensures
        r == (target_exists != Some(false)),
{
    match target_exists {
        Some(active) => active,
        None => true,
    }
}

/// Stopping the session at a parent path twice stops it once: the second
/// time finds nothing.
pub proof fn lemma_stop_by_parent_idempotent(active: Option<SessionView>, parent_path: Seq<char>)
    ensures
        take_spec(take_spec(active, parent_path).1, parent_path).0 is None,
        take_spec(take_spec(active, parent_path).1, parent_path).1 == take_spec(active, parent_path).1,
{
}

} // verus!
