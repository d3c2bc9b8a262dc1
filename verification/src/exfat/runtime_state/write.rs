//! Block writes and flushes of the virtual disk, as a state machine: the state
//! decides, and asks its caller to carry out each real file system commit and
//! the final sync of the mount root.
use vstd::prelude::*;
use crate::block_backend::BlockWriteOutcome;
use crate::error::{io_error, ErrorKind, IoError};
use crate::exfat::policy_rejection::concat_str;
use crate::exfat::runtime_state::commit::{apply_post, guard_refuses_mutation, modify_target, ops_view, real_fs_ops, RealFsOp};
use crate::exfat::transaction_resolver::blocked_path;
use crate::types::PolicySnapshot;
use crate::vfs::node::NodeView;
use crate::exfat::runtime_state::ExfatRuntimeState;
use crate::exfat::sector_owner::SectorOwner;
use crate::exfat::transaction::{PendingTransaction, ResolveStatus, TransactionError, TransactionWrite};
use crate::exfat::transaction_resolver::{resolve_spec, ResolveView, TransactionResolver};
use crate::exfat::write_interpreter::{is_recorded_write, refusal_kind, write_class, WriteClass, WriteInterpreter};
use crate::exfat::metadata_state::ExfatMetadataState;
use crate::exfat::transaction::deferred_writes;
use crate::vfs::index::find_id;
use crate::vfs::mutation::{mutations_view, MutationView};
use crate::vfs::mutation::FsMutation;
use crate::vfs::node::NodeId;
use crate::exfat::read_plan::{spec_read_plan, window, PieceView};

verus! {

broadcast use vstd::std_specs::vec::group_vec_axioms;

/// What the caller does next for a write or flush in progress.
#[derive(Debug)]
pub enum StepAction {
    /// Carry out these real file system operations in order (stopping at the
    /// first failure), then report the outcome with `commit_done`.
    RealFs(Vec<RealFsOp>),
    /// Sync the mount root; the request ends with the sync's outcome.
    SyncMountRoot,
    /// The request ends with this outcome (a flush that ends with `Committed`
    /// succeeded).
    Finish(Result<BlockWriteOutcome, IoError>),
}

/// Whether the admission check lets the mutation `m` through: its target is no
/// blocked placeholder and the operation guard allows it.
pub open spec fn mutation_admitted(nodes: Seq<NodeView>, snap: PolicySnapshot, m: crate::vfs::mutation::MutationView) -> bool {
    let blocked = match modify_target(m) {
        Some(p) => blocked_path(nodes, p),
        None => false,
    };
    !blocked && !guard_refuses_mutation(snap, m)
}

/// What starting the real file system commit of the mutation `m` from `pre`
/// does, ending in `post` with the step `step` (`flush` telling whether a
/// flush is in progress). An admitted mutation with a plan asks for its real
/// file system operations and changes nothing; one without a plan (a delete
/// whose target is gone) fails with `NotFound`. A mutation the admission check
/// refuses is never committed: a write to a blocked placeholder is absorbed
/// (reported as restored for a write, ending in the sync for a flush), any
/// other refusal fails with `PermissionDenied`. Failing and refusing drop the
/// pending transaction.
pub open spec fn commit_start_post(pre: ExfatRuntimeState, post: ExfatRuntimeState, m: MutationView, flush: bool, step: StepAction) -> bool {
    &&& post.spec_overlay() == pre.spec_overlay()
    &&& post.spec_nodes() == pre.spec_nodes()
    &&& post.spec_metadata() == pre.spec_metadata()
    &&& if mutation_admitted(pre.spec_nodes(), pre.spec_snapshot(), m) {
        match real_fs_ops(pre.spec_nodes(), m) {
            Some(ops) => (step matches StepAction::RealFs(v) && ops_view(v@) == ops) && post == pre,
            None => (step matches StepAction::Finish(Err(x)) && x.kind == ErrorKind::NotFound) && post.spec_pending()@
                == Seq::<TransactionWrite>::empty(),
        }
    } else {
        let blocked = match modify_target(m) {
            Some(p) => blocked_path(pre.spec_nodes(), p),
            None => false,
        };
        &&& post.spec_pending()@ == Seq::<TransactionWrite>::empty()
        &&& blocked && flush ==> step is SyncMountRoot
        &&& blocked && !flush ==> (step matches StepAction::Finish(Ok(BlockWriteOutcome::PolicyRejectedAndRestored { .. })))
        &&& !blocked ==> (step matches StepAction::Finish(Err(x)) && x.kind == ErrorKind::PermissionDenied)
    }
}

/// What a flush from `pre` does, ending in `post` with the step `step`: with
/// nothing pending it syncs the mount root; otherwise the pending transaction
/// is resolved (`resolve_spec`) and dropped, and the step follows the outcome:
/// the first mutation is committed, a transaction still waiting for directory
/// data or with nothing to do ends in the sync, a recoverable policy
/// rejection counts as committed, anything else fails.
pub open spec fn flush_post(pre: ExfatRuntimeState, post: ExfatRuntimeState, step: StepAction) -> bool {
    if pre.spec_pending()@.len() == 0 {
        step is SyncMountRoot && post == pre
    } else {
        match resolve_spec(pre, pre.spec_pending()@) {
            ResolveView::Complete(ms) => if ms.len() == 0 {
                step is SyncMountRoot && post.spec_pending()@ == Seq::<TransactionWrite>::empty()
            } else {
                commit_start_post(pre, post, ms[0], true, step)
            },
            ResolveView::Incomplete(_) => step is SyncMountRoot && post.spec_pending()@ == Seq::<TransactionWrite>::empty(),
            ResolveView::Invalid(e) => post.spec_pending()@ == Seq::<TransactionWrite>::empty() && if e is BlockedPlaceholderRewrite {
                step matches StepAction::Finish(Ok(BlockWriteOutcome::Committed))
            } else {
                step matches StepAction::Finish(Err(x)) && x.kind == ErrorKind::InvalidData
            },
            ResolveView::IoFail => (step matches StepAction::Finish(Err(x)) && x.kind == ErrorKind::InvalidData)
                && post.spec_pending()@ == Seq::<TransactionWrite>::empty(),
            ResolveView::ShortWrite(_) => (step matches StepAction::Finish(Err(x)) && x.kind == ErrorKind::InvalidInput)
                && post.spec_pending()@ == Seq::<TransactionWrite>::empty(),
        }
    }
}

/// How walking the chunks of a write ends: every chunk handled, an error of
/// this kind, or at a sector of a file whose write must be committed first.
pub enum WalkEnd {
    Done,
    Fail(ErrorKind),
    File(MutationView),
}

/// Where a walk over the chunks of a write stands: the overlay, the writes
/// recorded (class, sector, owner, data) and how it ended.
pub struct WalkState {
    pub ov: Map<u64, Seq<u8>>,
    pub recs: Seq<(WriteClass, u64, SectorOwner, Seq<u8>)>,
    pub end: WalkEnd,
}

/// The `i`-th chunk of `data`: its `i`-th 512 bytes, or what is left.
pub open spec fn chunk_of(data: Seq<u8>, i: int) -> Seq<u8> {
    let a = i * 512;
    let b = if data.len() - a > 512 { a + 512 } else { data.len() as int };
    data.subrange(a, b)
}

/// The write of the file data in `chunk` at a sector owned by file data of
/// node `node_id` at `offset`, keeping `len` bytes; `Fail(NotFound)` when no
/// node has that id.
pub open spec fn file_write_end(nodes: Seq<NodeView>, node_id: u64, offset: u64, chunk: Seq<u8>, len: int) -> WalkEnd {
    match find_id(nodes, NodeId(node_id)) {
        None => WalkEnd::Fail(ErrorKind::NotFound),
        Some(k) => WalkEnd::File(MutationView::WriteFile { virtual_path: nodes[k].virtual_path, offset, data: chunk.take(len) }),
    }
}

/// Walks the chunks of `data`, written from sector `start`, from the `i`-th
/// on, by the owner `meta` gives each sector: boot region sectors go to the
/// overlay `ov` (a chunk shorter than a sector fails with `InvalidData`),
/// a sector of file data ends the walk with the file write, sectors of a
/// protected region end it with the refusal, and the others are recorded.
pub open spec fn walk(
    meta: ExfatMetadataState,
    nodes: Seq<NodeView>,
    start: u64,
    data: Seq<u8>,
    i: nat,
    ov: Map<u64, Seq<u8>>,
    recs: Seq<(WriteClass, u64, SectorOwner, Seq<u8>)>,
) -> WalkState
    decreases data.len() - i,
{
    if i * 512 >= data.len() {
        WalkState { ov, recs, end: WalkEnd::Done }
    } else if start + i > u64::MAX {
        WalkState { ov, recs, end: WalkEnd::Fail(ErrorKind::InvalidInput) }
    } else {
        let chunk = chunk_of(data, i as int);
        let sector = (start + i) as u64;
        proof {
            assert(i < data.len());
        }
        let owner = meta.spec_owner(sector);
        match owner {
            SectorOwner::BootRegion | SectorOwner::BackupBootRegion => if chunk.len() == 512 {
                walk(meta, nodes, start, data, i + 1, ov.insert(sector, chunk), recs)
            } else {
                WalkState { ov, recs, end: WalkEnd::Fail(ErrorKind::InvalidData) }
            },
            SectorOwner::FileData { node_id, file_offset, valid_bytes } => WalkState {
                ov,
                recs,
                end: file_write_end(
                    nodes,
                    node_id,
                    file_offset,
                    chunk,
                    if (valid_bytes as usize) < chunk.len() { valid_bytes as int } else { chunk.len() as int },
                ),
            },
            SectorOwner::AllocatedZero { node_id, file_offset } => {
                let size = match find_id(nodes, NodeId(node_id)) {
                    Some(k) => nodes[k].size,
                    None => 0,
                };
                let remaining: u64 = if size >= file_offset { (size - file_offset) as u64 } else { 0 };
                let len = if size == 0 {
                    chunk.len() as int
                } else if remaining < chunk.len() {
                    remaining as int
                } else {
                    chunk.len() as int
                };
                WalkState { ov, recs, end: file_write_end(nodes, node_id, file_offset, chunk, len) }
            },
            _ => match write_class(owner) {
                None => WalkState { ov, recs, end: WalkEnd::Fail(refusal_kind(owner)) },
                Some(c) => walk(meta, nodes, start, data, i + 1, ov, recs.push((c, sector, owner, chunk))),
            },
        }
    }
}

/// `p` is `base` followed by one recorded write per entry of `recs`.
pub open spec fn recorded_into(
    p: Seq<TransactionWrite>,
    base: Seq<TransactionWrite>,
    recs: Seq<(WriteClass, u64, SectorOwner, Seq<u8>)>,
) -> bool {
    &&& p.len() == base.len() + recs.len()
    &&& p.take(base.len() as int) == base
    &&& forall|j: int|
        0 <= j < recs.len() ==> is_recorded_write(#[trigger] p[base.len() + j], recs[j].0, recs[j].1, recs[j].2, recs[j].3)
}

/// What resolving the pending transaction of `mid` at the end of a write
/// does, ending in `post` with the step `step`: the first mutation is
/// committed; with none, the deferred data writes stay pending and the write
/// counts as committed; a transaction waiting for directory data stays
/// pending and the write counts as committed; a recoverable policy rejection
/// is absorbed; anything else fails. Failed and rejected transactions are
/// dropped.
pub open spec fn resolve_write_post(mid: ExfatRuntimeState, post: ExfatRuntimeState, step: StepAction) -> bool {
    &&& post.spec_overlay() == mid.spec_overlay()
    &&& post.spec_nodes() == mid.spec_nodes()
    &&& post.spec_metadata() == mid.spec_metadata()
    &&& match resolve_spec(mid, mid.spec_pending()@) {
        ResolveView::Complete(ms) => if ms.len() == 0 {
            (step matches StepAction::Finish(Ok(BlockWriteOutcome::Committed))) && post.spec_pending()@ == deferred_writes(
                mid.spec_pending()@,
            )
        } else {
            commit_start_post(mid, post, ms[0], false, step)
        },
        ResolveView::Incomplete(_) => (step matches StepAction::Finish(Ok(BlockWriteOutcome::Committed))) && post == mid,
        ResolveView::Invalid(e) => post.spec_pending()@ == Seq::<TransactionWrite>::empty() && if e is BlockedPlaceholderRewrite {
            step matches StepAction::Finish(Ok(BlockWriteOutcome::PolicyRejectedAndRestored { .. }))
        } else {
            step matches StepAction::Finish(Err(x)) && x.kind == ErrorKind::InvalidData
        },
        ResolveView::IoFail => (step matches StepAction::Finish(Err(x)) && x.kind == ErrorKind::InvalidData)
            && post.spec_pending()@ == Seq::<TransactionWrite>::empty(),
        ResolveView::ShortWrite(_) => (step matches StepAction::Finish(Err(x)) && x.kind == ErrorKind::InvalidInput)
            && post.spec_pending()@ == Seq::<TransactionWrite>::empty(),
    }
}

/// What a write of `data` from sector `start` does from its `i`-th chunk on,
/// from `pre` (with `recorded` telling whether an earlier chunk was recorded),
/// ending in `post` with the step `step`: the walk over the chunks, then, when
/// something was recorded, the resolution of the pending transaction.
pub open spec fn write_post(
    pre: ExfatRuntimeState,
    post: ExfatRuntimeState,
    start: u64,
    data: Seq<u8>,
    i: nat,
    recorded: bool,
    step: StepAction,
) -> bool {
    let w = walk(pre.spec_metadata(), pre.spec_nodes(), start, data, i, pre.spec_overlay(), seq![]);
    match w.end {
        WalkEnd::Fail(k) => {
            &&& step matches StepAction::Finish(Err(e)) && e.kind == k
            &&& post.spec_overlay() == w.ov
            &&& pre.same_but_writes(post)
            &&& recorded_into(post.spec_pending()@, pre.spec_pending()@, w.recs)
        },
        WalkEnd::File(m) => exists|mid: ExfatRuntimeState|
            #[trigger] pre.same_but_writes(mid) && mid.spec_overlay() == w.ov && recorded_into(
                mid.spec_pending()@,
                pre.spec_pending()@,
                w.recs,
            ) && commit_start_post(mid, post, m, false, step),
        WalkEnd::Done => if !recorded && w.recs.len() == 0 {
            &&& step matches StepAction::Finish(Ok(BlockWriteOutcome::Committed))
            &&& post.spec_overlay() == w.ov
            &&& pre.same_but_writes(post)
            &&& post.spec_pending() == pre.spec_pending()
        } else {
            exists|mid: ExfatRuntimeState|
                #[trigger] pre.same_but_writes(mid) && mid.spec_overlay() == w.ov && recorded_into(
                    mid.spec_pending()@,
                    pre.spec_pending()@,
                    w.recs,
                ) && resolve_write_post(mid, post, step)
        },
    }
}

/// A whole-sector write to a sector of the boot region commits at once, and a
/// read of that sector then gives back the written bytes.
pub proof fn lemma_boot_write_reads_back(
    pre: ExfatRuntimeState,
    post: ExfatRuntimeState,
    sector: u64,
    data: Seq<u8>,
    step: StepAction,
)
    requires
        pre.wf(),
        data.len() == 512,
        sector * 512 + 512 <= u64::MAX,
        pre.spec_metadata().spec_owner(sector) is BootRegion || pre.spec_metadata().spec_owner(sector) is BackupBootRegion,
        write_post(pre, post, sector, data, 0, false, step),
        post.spec_layout() == pre.spec_layout(),
    ensures
        step matches StepAction::Finish(Ok(BlockWriteOutcome::Committed)),
        spec_read_plan(post, (sector * 512) as u64, 512) == Ok::<Seq<PieceView>, ErrorKind>(seq![PieceView::Bytes(data)]),
{
    pre.lemma_owned_sector_on_disk(sector);
    let meta = pre.spec_metadata();
    let nodes = pre.spec_nodes();
    assert(chunk_of(data, 0) =~= data);
    let ov1 = pre.spec_overlay().insert(sector, data);
    assert(walk(meta, nodes, sector, data, 1, ov1, seq![]) == WalkState { ov: ov1, recs: seq![], end: WalkEnd::Done });
    assert(walk(meta, nodes, sector, data, 0, pre.spec_overlay(), seq![]) == WalkState {
        ov: ov1,
        recs: seq![],
        end: WalkEnd::Done,
    });
    assert(post.spec_overlay() == ov1);
    assert(window(data, 0, 512) =~= data);
    let off = (sector * 512) as nat;
    assert(off / 512 == sector && off % 512 == 0) by (nonlinear_arith)
        requires
            off == sector * 512,
    ;
    assert(crate::exfat::read_plan::plan_from(post, off + 512, 0) == Ok::<Seq<PieceView>, ErrorKind>(Seq::<PieceView>::empty()));
    assert(seq![PieceView::Bytes(data)] + Seq::<PieceView>::empty() =~= seq![PieceView::Bytes(data)]);
}

/// A write or flush in progress.
pub struct WriteRun {
    flush: bool,
    data: Vec<u8>,
    start_sector: u64,
    next_chunk: usize,
    recorded: bool,
    resolved: Option<(u64, Vec<FsMutation>)>,
    awaiting: Option<FsMutation>,
}

impl WriteRun {
    /// The mutation the run waits to see committed on the real disk.
    pub closed spec fn spec_awaiting_mutation(&self) -> Option<MutationView> {
        match self.awaiting {
            Some(m) => Some(m@),
            None => None,
        }
    }

    /// What carrying the run on from `pre` does, ending in `post` with the
    /// step `step`: a write not yet resolved walks its remaining chunks and
    /// resolves what it recorded (`write_post`); a resolved transaction
    /// commits its next mutation, or, with none left, is dropped and the
    /// request ends (a flush in the sync of the mount root).
    pub closed spec fn continue_post(&self, pre: ExfatRuntimeState, post: ExfatRuntimeState, step: StepAction) -> bool {
        &&& (self.resolved is None && !self.flush) ==> write_post(
            pre,
            post,
            self.start_sector,
            self.data@,
            self.next_chunk as nat,
            self.recorded,
            step,
        )
        &&& match self.resolved {
            Some((_, ms)) => if ms@.len() > 0 {
                commit_start_post(pre, post, ms@[0]@, self.flush, step)
            } else {
                &&& post.spec_pending()@ == Seq::<TransactionWrite>::empty()
                &&& self.flush ==> step is SyncMountRoot
                &&& !self.flush ==> (step matches StepAction::Finish(Ok(BlockWriteOutcome::Committed)))
            },
            None => true,
        }
    }

    pub closed spec fn spec_awaiting(&self) -> bool {
        self.awaiting is Some
    }

    /// Whether the run waits for the outcome of a real file system commit.
    pub fn is_awaiting_commit(&self) -> (r: bool)
        ensures
            r == self.spec_awaiting(),
    {
        self.awaiting.is_some()
    }
}

impl ExfatRuntimeState {
    /// Starts a fresh transaction.
    fn reset_pending_transaction(&mut self)
        ensures
            final(self).pending_tx@ == Seq::<TransactionWrite>::empty(),
            final(self).pending_tx.spec_id() == old(self).next_tx_id,
            final(self).next_tx_id == old(self).next_tx_id.wrapping_add(1),
            final(self).index == old(self).index,
            final(self).volume == old(self).volume,
            final(self).metadata == old(self).metadata,
            final(self).metadata_overlay == old(self).metadata_overlay,
            final(self).snapshot == old(self).snapshot,
    {
        self.pending_tx = PendingTransaction::new(self.next_tx_id);
        self.next_tx_id = self.next_tx_id.wrapping_add(1);
    }

    /// Ends a commit that failed with `e`: a recoverable policy rejection is
    /// absorbed, anything else ends the request with the error; the failed
    /// transaction is dropped either way.
    fn commit_failed(&mut self, run: WriteRun, e: IoError) -> (r: (WriteRun, StepAction))
        requires
            old(self).wf(),
        ensures
            final(self).wf(),
            final(self).spec_layout() == old(self).spec_layout(),
            final(self).spec_pending()@ == Seq::<TransactionWrite>::empty(),
            e.rejection is None ==> (r.1 matches StepAction::Finish(Err(x)) && x.kind == e.kind),
            !(r.1 is RealFs),
            final(self).pending_tx.spec_id() == old(self).next_tx_id,
            final(self).next_tx_id == old(self).next_tx_id.wrapping_add(1),
            final(self).index == old(self).index,
            final(self).volume == old(self).volume,
            final(self).metadata == old(self).metadata,
            final(self).metadata_overlay == old(self).metadata_overlay,
            final(self).snapshot == old(self).snapshot,
            r.0 == run,
            match e.rejection {
                Some(rej) => if run.flush {
                    r.1 is SyncMountRoot
                } else {
                    r.1 matches StepAction::Finish(Ok(BlockWriteOutcome::PolicyRejectedAndRestored { reason }))
                        && reason@ == "blocked placeholder "@ + rej.virtual_path@ + " rejected for "@ + rej.operation@
                        + ": "@ + rej.reason@
                },
                None => r.1 matches StepAction::Finish(Err(x)) && x == e,
            },
    {
        self.reset_pending_transaction();
        match &e.rejection {
            Some(rej) => {
                if run.flush {
                    (run, StepAction::SyncMountRoot)
                } else {
                    let reason = rej.to_outcome_reason();
                    (run, StepAction::Finish(Ok(BlockWriteOutcome::PolicyRejectedAndRestored { reason })))
                }
            },
            None => (run, StepAction::Finish(Err(e))),
        }
    }

    /// Admits `m` and asks the caller to commit it to the real disk.
    fn begin_commit(&mut self, run: WriteRun, m: FsMutation) -> (r: (WriteRun, StepAction))
        requires
            old(self).wf(),
        ensures
            final(self).wf(),
            final(self).spec_layout() == old(self).spec_layout(),
            final(self).spec_overlay() == old(self).spec_overlay(),
            final(self).spec_nodes() == old(self).spec_nodes(),
            final(self).spec_metadata() == old(self).spec_metadata(),
            r.1 is RealFs ==> r.0.spec_awaiting(),
            commit_start_post(*old(self), *final(self), m@, run.flush, r.1),
            r.1 is RealFs ==> r.0.awaiting == Some(m),
    {
        match self.check_mutation(&m) {
            Err(e) => {
                return self.commit_failed(run, e);
            },
            Ok(()) => {},
        }
        match self.real_fs_plan(&m) {
            Err(e) => {
                let message = concat_str("exFAT real filesystem commit failed; session must fail-close: ", e.message.as_str());
                let wrapped = IoError { kind: e.kind, message, rejection: None };
                self.commit_failed(run, wrapped)
            },
            Ok(ops) => {
                let mut run = run;
                run.awaiting = Some(m);
                (run, StepAction::RealFs(ops))
            },
        }
    }

    /// Walks the chunks of the write `first` from its next chunk on (see
    /// `walk`); `None` when every chunk is handled.
    fn walk_chunks(&mut self, first: WriteRun) -> (r: (WriteRun, Option<StepAction>))
        requires
            old(self).wf(),
            first.resolved is None,
            !first.flush,
        ensures
            final(self).wf(),
            final(self).spec_layout() == old(self).spec_layout(),
            r.1 matches Some(StepAction::RealFs(_)) ==> r.0.spec_awaiting(),
            ({
                let w = walk(
                    old(self).spec_metadata(),
                    old(self).spec_nodes(),
                    first.start_sector,
                    first.data@,
                    first.next_chunk as nat,
                    old(self).spec_overlay(),
                    seq![],
                );
                match w.end {
                    WalkEnd::Done => {
                        &&& r.1 is None
                        &&& final(self).spec_overlay() == w.ov
                        &&& old(self).same_but_writes(*final(self))
                        &&& recorded_into(final(self).spec_pending()@, old(self).spec_pending()@, w.recs)
                        &&& w.recs.len() == 0 ==> final(self).spec_pending() == old(self).spec_pending()
                        &&& r.0.recorded == (first.recorded || w.recs.len() > 0)
                        &&& r.0.resolved is None
                        &&& !r.0.flush
                    },
                    WalkEnd::Fail(k) => {
                        &&& r.1 matches Some(StepAction::Finish(Err(e))) && e.kind == k
                        &&& final(self).spec_overlay() == w.ov
                        &&& old(self).same_but_writes(*final(self))
                        &&& recorded_into(final(self).spec_pending()@, old(self).spec_pending()@, w.recs)
                    },
                    WalkEnd::File(m) => r.1 is Some && exists|mid: ExfatRuntimeState|
                        #[trigger] old(self).same_but_writes(mid) && mid.spec_overlay() == w.ov && recorded_into(
                            mid.spec_pending()@,
                            old(self).spec_pending()@,
                            w.recs,
                        ) && commit_start_post(mid, *final(self), m, false, r.1->0),
                }
            }),
    {
        let ghost meta0 = old(self).spec_metadata();
        let ghost nodes0 = old(self).spec_nodes();
        let ghost w0 = walk(meta0, nodes0, first.start_sector, first.data@, first.next_chunk as nat, old(self).spec_overlay(), seq![]);
        let ghost mut recs: Seq<(WriteClass, u64, SectorOwner, Seq<u8>)> = seq![];
        let mut run = first;
        let n: usize = run.data.len();
        assert(old(self).pending_tx@.take(old(self).pending_tx@.len() as int) =~= old(self).pending_tx@);
        while run.next_chunk < n && run.next_chunk < n / 512 + 1
            invariant
                self.wf(),
                self.spec_layout() == old(self).spec_layout(),
                n == run.data@.len(),
                run.data@ == first.data@,
                run.start_sector == first.start_sector,
                !run.flush,
                run.resolved is None,
                run.recorded == (first.recorded || recs.len() > 0),
                meta0 == old(self).spec_metadata(),
                nodes0 == old(self).spec_nodes(),
                w0 == walk(meta0, nodes0, first.start_sector, first.data@, first.next_chunk as nat, old(self).spec_overlay(), seq![]),
                w0 == walk(meta0, nodes0, first.start_sector, first.data@, run.next_chunk as nat, self.spec_overlay(), recs),
                old(self).same_but_writes(*self),
                recorded_into(self.pending_tx@, old(self).pending_tx@, recs),
                self.pending_tx.spec_id() == old(self).pending_tx.spec_id(),
                recs.len() == 0 ==> self.pending_tx == old(self).pending_tx,
            ensures
                w0 == walk(meta0, nodes0, first.start_sector, first.data@, run.next_chunk as nat, self.spec_overlay(), recs),
                run.next_chunk * 512 >= n,
            decreases n - run.next_chunk,
        {
            let i = run.next_chunk;
            let a: usize = i * 512;
            if a >= n {
                break;
            }
            let b: usize = if n - a > 512 { a + 512 } else { n };
            let chunk = vstd::slice::slice_subrange(run.data.as_slice(), a, b);
            assert(chunk@ == chunk_of(first.data@, i as int));
            let ghost ov = self.spec_overlay();
            let sector: u64 = match run.start_sector.checked_add(i as u64) {
                Some(s) => s,
                None => {
                    return (run, Some(StepAction::Finish(Err(io_error(ErrorKind::InvalidInput, "write beyond the disk")))));
                },
            };
            run.next_chunk = i + 1;
            let owner = self.sector_owner(sector);
            match owner {
                SectorOwner::BootRegion | SectorOwner::BackupBootRegion => {
                    match self.metadata_overlay.apply_committed_sector(sector, chunk) {
                        Ok(()) => {},
                        Err(e) => {
                            return (run, Some(StepAction::Finish(Err(e))));
                        },
                    }
                },
                SectorOwner::FileData { node_id, file_offset, valid_bytes } => {
                    let vp = match self.index.node(NodeId(node_id)) {
                        None => {
                            return (
                                run,
                                Some(StepAction::Finish(Err(io_error(ErrorKind::NotFound, "file data owner not found in VFS")))),
                            );
                        },
                        Some(node) => node.virtual_path.clone(),
                    };
                    let write_len: usize = if (valid_bytes as usize) < chunk.len() { valid_bytes as usize } else { chunk.len() };
                    let part = vstd::slice::slice_subrange(chunk, 0, write_len);
                    let m = FsMutation::WriteFile {
                        virtual_path: vp,
                        offset: file_offset,
                        data: vstd::slice::slice_to_vec(part),
                    };
                    assert(part@ =~= chunk@.take(write_len as int));
                    let ghost mid = *self;
                    assert(old(self).same_but_writes(mid));
                    let (run2, step) = self.begin_commit(run, m);
                    return (run2, Some(step));
                },
                SectorOwner::AllocatedZero { node_id, file_offset } => {
                    let (vp, size) = match self.index.node(NodeId(node_id)) {
                        None => {
                            return (
                                run,
                                Some(StepAction::Finish(Err(io_error(ErrorKind::NotFound, "file data owner not found in VFS")))),
                            );
                        },
                        Some(node) => (node.virtual_path.clone(), node.size),
                    };
                    let remaining: u64 = if size >= file_offset { size - file_offset } else { 0 };
                    let write_len: usize = if size == 0 {
                        chunk.len()
                    } else if remaining < chunk.len() as u64 {
                        remaining as usize
                    } else {
                        chunk.len()
                    };
                    let part = vstd::slice::slice_subrange(chunk, 0, write_len);
                    let m = FsMutation::WriteFile {
                        virtual_path: vp,
                        offset: file_offset,
                        data: vstd::slice::slice_to_vec(part),
                    };
                    assert(part@ =~= chunk@.take(write_len as int));
                    let ghost mid = *self;
                    assert(old(self).same_but_writes(mid));
                    let (run2, step) = self.begin_commit(run, m);
                    return (run2, Some(step));
                },
                _ => {
                    let ghost p0 = self.pending_tx@;
                    match WriteInterpreter::new().record_sector_write(&mut self.pending_tx, sector, owner, chunk) {
                        Ok(()) => {},
                        Err(e) => {
                            return (run, Some(StepAction::Finish(Err(e))));
                        },
                    }
                    proof {
                        let c = write_class(owner)->0;
                        let base = old(self).pending_tx@;
                        let nrecs = recs.push((c, sector, owner, chunk@));
                        let p1 = self.pending_tx@;
                        assert(p1.take(p0.len() as int) == p0);
                        assert(p1.take(base.len() as int) =~= base) by {
                            assert forall|j: int| 0 <= j < base.len() implies p1[j] == base[j] by {
                                assert(p1[j] == p1.take(p0.len() as int)[j]);
                                assert(p0[j] == p0.take(base.len() as int)[j]);
                            }
                        }
                        assert forall|j: int| 0 <= j < nrecs.len() implies is_recorded_write(
                            #[trigger] p1[base.len() + j],
                            nrecs[j].0,
                            nrecs[j].1,
                            nrecs[j].2,
                            nrecs[j].3,
                        ) by {
                            if j < recs.len() {
                                assert(p1[base.len() + j] == p1.take(p0.len() as int)[base.len() + j]);
                                assert(is_recorded_write(p0[base.len() + j], recs[j].0, recs[j].1, recs[j].2, recs[j].3));
                            } else {
                                assert(p1[base.len() + j] == p1.last());
                            }
                        }
                        recs = nrecs;
                    }
                    run.recorded = true;
                },
            }
        }
        (run, None)
    }

    /// Resolves the pending transaction once the chunks of a write that
    /// recorded something are handled (see `resolve_write_post`).
    fn resolve_write(&mut self, run: WriteRun) -> (r: (WriteRun, StepAction))
        requires
            old(self).wf(),
            !run.flush,
        ensures
            final(self).wf(),
            final(self).spec_layout() == old(self).spec_layout(),
            r.1 is RealFs ==> r.0.spec_awaiting(),
            resolve_write_post(*old(self), *final(self), r.1),
    {
        let mut run = run;
        let tx_id = self.pending_tx.id();
        let status = TransactionResolver::new().resolve_closed(&self.pending_tx, self);
        match status {
            Ok(ResolveStatus::Complete(resolved)) => {
                let ghost mid = *self;
                if resolved.mutations.len() == 0 {
                    self.pending_tx.retain_deferred_data_writes();
                    if self.pending_tx.is_empty() {
                        self.reset_pending_transaction();
                        assert(self.pending_tx@ =~= deferred_writes(mid.pending_tx@));
                    }
                    return (run, StepAction::Finish(Ok(BlockWriteOutcome::Committed)));
                }
                let mut ms = resolved.mutations;
                let ghost all = ms@;
                let m = ms.remove(0);
                assert(m == all[0]);
                assert(mutations_view(all)[0] == m@);
                run.resolved = Some((tx_id, ms));
                self.begin_commit(run, m)
            },
            Ok(ResolveStatus::Incomplete(_)) => (run, StepAction::Finish(Ok(BlockWriteOutcome::Committed))),
            Ok(ResolveStatus::Invalid(err)) => {
                let reason = err.debug_text();
                self.reset_pending_transaction();
                if err.is_recoverable_policy_rejection() {
                    return (run, StepAction::Finish(Ok(BlockWriteOutcome::PolicyRejectedAndRestored { reason })));
                }
                (run, StepAction::Finish(Err(io_error(ErrorKind::InvalidData, reason.as_str()))))
            },
            Err(e) => {
                self.reset_pending_transaction();
                (run, StepAction::Finish(Err(e)))
            },
        }
    }

    /// Carries the request on until it needs a real file system commit or ends.
    fn advance(&mut self, first: WriteRun) -> (r: (WriteRun, StepAction))
        requires
            old(self).wf(),
        ensures
            final(self).wf(),
            final(self).spec_layout() == old(self).spec_layout(),
            r.1 is RealFs ==> r.0.spec_awaiting(),
            first.continue_post(*old(self), *final(self), r.1),
    {
        let mut run = first;
        if !run.flush && run.resolved.is_none() {
            let ghost pre = *self;
            let (run2, stop) = self.walk_chunks(run);
            match stop {
                Some(step) => {
                    return (run2, step);
                },
                None => {},
            }
            if !run2.recorded {
                return (run2, StepAction::Finish(Ok(BlockWriteOutcome::Committed)));
            }
            let ghost mid = *self;
            let r = self.resolve_write(run2);
            proof {
                assert(pre.same_but_writes(mid));
            }
            return r;
        }
        let next_m = match &mut run.resolved {
            None => None,
            Some((_, ms)) => {
                if ms.len() > 0 {
                    Some(ms.remove(0))
                } else {
                    None
                }
            },
        };
        match next_m {
            Some(m) => self.begin_commit(run, m),
            None => {
                self.reset_pending_transaction();
                if run.flush {
                    (run, StepAction::SyncMountRoot)
                } else {
                    (run, StepAction::Finish(Ok(BlockWriteOutcome::Committed)))
                }
            },
        }
    }

    /// Starts the write of `data` at byte `offset`: `PermissionDenied` under a
    /// read-only policy, `InvalidInput` unless sector aligned. Sectors of
    /// files become file writes committed one by one; boot region sectors
    /// update the overlay; the others are recorded in the pending transaction,
    /// which is then resolved and its mutations committed.
    pub fn write_at(&mut self, offset: u64, data: &[u8]) -> (r: (WriteRun, StepAction))
        requires
            old(self).wf(),
        ensures
            final(self).wf(),
            final(self).spec_layout() == old(self).spec_layout(),
            r.1 is RealFs ==> r.0.spec_awaiting(),
            data@.len() > 0 && old(self).spec_snapshot().permission == 0 ==> (r.1 matches StepAction::Finish(Err(e))
                && e.kind == ErrorKind::PermissionDenied && *final(self) == *old(self)),
            !(data@.len() > 0 && old(self).spec_snapshot().permission == 0) && offset % 512 != 0 ==> (r.1 matches StepAction::Finish(
                Err(e),
            ) && e.kind == ErrorKind::InvalidInput && *final(self) == *old(self)),
            !(data@.len() > 0 && old(self).spec_snapshot().permission == 0) && offset % 512 == 0 ==> write_post(
                *old(self),
                *final(self),
                (offset / 512) as u64,
                data@,
                0,
                false,
                r.1,
            ),
    {
        let run = WriteRun {
            flush: false,
            data: vstd::slice::slice_to_vec(data),
            start_sector: offset / 512,
            next_chunk: 0,
            recorded: false,
            resolved: None,
            awaiting: None,
        };
        if data.len() > 0 && self.snapshot.permission == 0 {
            return (run, StepAction::Finish(Err(io_error(ErrorKind::PermissionDenied, "read-only permission forbids writes"))));
        }
        if offset % 512 != 0 {
            return (run, StepAction::Finish(Err(io_error(ErrorKind::InvalidInput, "NBD write offset is not sector aligned"))));
        }
        self.advance(run)
    }

    /// Starts a flush: resolves the pending transaction, if any, and commits
    /// its mutations; the flush then syncs the mount root.
    pub fn flush(&mut self) -> (r: (WriteRun, StepAction))
        requires
            old(self).wf(),
        ensures
            final(self).wf(),
            final(self).spec_layout() == old(self).spec_layout(),
            r.1 is RealFs ==> r.0.spec_awaiting(),
            flush_post(*old(self), *final(self), r.1),
    {
        let mut run = WriteRun {
            flush: true,
            data: Vec::new(),
            start_sector: 0,
            next_chunk: 0,
            recorded: false,
            resolved: None,
            awaiting: None,
        };
        if self.pending_tx.writes().len() == 0 {
            return (run, StepAction::SyncMountRoot);
        }
        let tx_id = self.pending_tx.id();
        let status = TransactionResolver::new().resolve_closed(&self.pending_tx, self);
        match status {
            Ok(ResolveStatus::Complete(resolved)) => {
                if resolved.mutations.len() == 0 {
                    self.reset_pending_transaction();
                    return (run, StepAction::SyncMountRoot);
                }
                run.resolved = Some((tx_id, resolved.mutations));
                self.advance(run)
            },
            Ok(ResolveStatus::Incomplete(_)) => {
                self.reset_pending_transaction();
                (run, StepAction::SyncMountRoot)
            },
            Ok(ResolveStatus::Invalid(err)) => {
                let reason = err.debug_text();
                self.reset_pending_transaction();
                if err.is_recoverable_policy_rejection() {
                    return (run, StepAction::Finish(Ok(BlockWriteOutcome::Committed)));
                }
                (run, StepAction::Finish(Err(io_error(ErrorKind::InvalidData, reason.as_str()))))
            },
            Err(e) => {
                self.reset_pending_transaction();
                (run, StepAction::Finish(Err(e)))
            },
        }
    }

    /// Shuts the state down: a flush.
    pub fn shutdown(&mut self) -> (r: (WriteRun, StepAction))
        requires
            old(self).wf(),
        ensures
            final(self).wf(),
            final(self).spec_layout() == old(self).spec_layout(),
            r.1 is RealFs ==> r.0.spec_awaiting(),
            flush_post(*old(self), *final(self), r.1),
    {
        self.flush()
    }

    /// Continues a write or flush after the caller carried out the real file
    /// system commit it asked for: a failure ends the request with that error
    /// (and drops the pending transaction); a success is applied to the state
    /// and the request carries on.
    pub fn commit_done(&mut self, run: WriteRun, outcome: Result<(), IoError>) -> (r: (WriteRun, StepAction))
        requires
            old(self).wf(),
        ensures
            final(self).wf(),
            final(self).spec_layout() == old(self).spec_layout(),
            r.1 is RealFs ==> r.0.spec_awaiting(),
            outcome matches Err(e) ==> (r.1 matches StepAction::Finish(Err(x)) && x.kind == e.kind && final(self).spec_pending()@
                == Seq::<TransactionWrite>::empty()),
            outcome is Ok && run.spec_awaiting_mutation() is None ==> run.continue_post(*old(self), *final(self), r.1),
            outcome is Ok && run.spec_awaiting_mutation() is Some ==> exists|mid: ExfatRuntimeState, ok: bool|
                #[trigger] apply_post(*old(self), mid, run.spec_awaiting_mutation()->0, ok) && (ok ==> run.continue_post(
                    mid,
                    *final(self),
                    r.1,
                )) && (!ok ==> (r.1 matches StepAction::Finish(Err(_))) && final(self).spec_pending()@ == Seq::<
                    TransactionWrite,
                >::empty()),
    {
        let ghost run0 = run;
        let mut run = run;
        let m = run.awaiting.take();
        match outcome {
            Err(e) => {
                let message = concat_str("exFAT real filesystem commit failed; session must fail-close: ", e.message.as_str());
                let wrapped = IoError { kind: e.kind, message, rejection: None };
                self.commit_failed(run, wrapped)
            },
            Ok(()) => match m {
                None => {
                    let ghost pre = *self;
                    let r = self.advance(run);
                    assert(run0.continue_post(pre, *self, r.1) == run.continue_post(pre, *self, r.1));
                    r
                },
                Some(m) => {
                    let ghost pre = *self;
                    let applied = self.apply_committed_mutation(&m);
                    let ghost mid = *self;
                    let ghost ok = applied is Ok;
                    proof {
                        assert(run0.spec_awaiting_mutation() == Some(m@));
                        assert(apply_post(pre, mid, run0.spec_awaiting_mutation()->0, ok));
                    }
                    match applied {
                        Err(e) => {
                            let plain = IoError { kind: e.kind, message: e.message, rejection: None };
                            self.commit_failed(run, plain)
                        },
                        Ok(()) => {
                            let r = self.advance(run);
                            assert(run0.continue_post(mid, *self, r.1) == run.continue_post(mid, *self, r.1));
                            r
                        },
                    }
                },
            },
        }
    }
}

} // verus!
