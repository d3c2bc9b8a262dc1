//! Startup recovery: what the service cleans up of an earlier run (the LUN
//! backing, old NBD connections, leftover raw mounts).
use vstd::prelude::*;
use crate::error::FileAccessError;
use crate::raw_mount::{mount_entries_from, mount_entries_view, planned_usb_raw_unmounts, unmounts_of, MountOperations};
use crate::autorun::split_lines;
use crate::raw_mount::entries_of;
use vstd::string::StringExecFns;

verus! {

/// What startup recovery works on.
#[derive(Debug, Clone)]
pub struct StartupRecoveryConfig {
    pub mount_base: String,
    pub nbd_pool_size: u32,
    pub lun_file: String,
}

/// What startup recovery did.
#[derive(Debug, Default, Clone, PartialEq, Eq)]
pub struct StartupRecoveryReport {
    pub cleared_lun: bool,
    pub disconnected_nbd: usize,
    pub recovered_mounts: usize,
}

impl StartupRecoveryConfig {
    /// The production configuration: raw mounts under `/mnt/usb_raw`, a pool
    /// of four NBD devices, and the LUN backing file `lun_file`.
    pub fn production(lun_file: String) -> (c: Self)
        ensures
            c.mount_base@ == seq!['/', 'm', 'n', 't', '/', 'u', 's', 'b', '_', 'r', 'a', 'w'],
            c.nbd_pool_size == 4,
            c.lun_file@ == lun_file@,
    {
        let base = "/mnt/usb_raw";
        proof {
            reveal_strlit("/mnt/usb_raw");
        }
        let c = StartupRecoveryConfig { mount_base: String::from_str(base), nbd_pool_size: 4, lun_file };
        assert(c.mount_base@ =~= seq!['/', 'm', 'n', 't', '/', 'u', 's', 'b', '_', 'r', 'a', 'w']);
        c
    }
}

/// The number of `true` outcomes.
pub open spec fn count_true(s: Seq<bool>) -> nat
    decreases s.len(),
{
    if s.len() == 0 {
        0
    } else {
        count_true(s.drop_last()) + (if s.last() { 1nat } else { 0nat })
    }
}

/// At most one success per outcome.
proof fn lemma_count_true_le(s: Seq<bool>)
    ensures
        count_true(s) <= s.len(),
    decreases s.len(),
{
    if s.len() > 0 {
        lemma_count_true_le(s.drop_last());
    }
}

/// The report of a mount recovery whose unmounts had the outcomes `outcomes`
/// (`true` for a success): the successes are counted; nothing else was done.
pub fn mount_recovery_report(outcomes: &[bool]) -> (r: StartupRecoveryReport)
    ensures
        !r.cleared_lun,
        r.disconnected_nbd == 0,
        r.recovered_mounts == count_true(outcomes@),
{
    let mut n: usize = 0;
    let mut i: usize = 0;
    while i < outcomes.len()
        invariant
            i <= outcomes@.len(),
            n == count_true(outcomes@.take(i as int)),
        decreases outcomes@.len() - i,
    {
        proof {
            assert(outcomes@.take(i + 1).drop_last() =~= outcomes@.take(i as int));
            lemma_count_true_le(outcomes@.take(i as int));
        }
        if outcomes[i] {
            n = n + 1;
        }
        i = i + 1;
    }
    assert(outcomes@.take(outcomes@.len() as int) =~= outcomes@);
    StartupRecoveryReport { cleared_lun: false, disconnected_nbd: 0, recovered_mounts: n }
}

/// Unmounts the leftover raw mounts under `mount_base` that the mount table
/// text `mounts_text` lists, in order; failures are skipped. The report
/// counts the mounts undone (`mount_recovery_report` of the outcomes, which
/// the mount operations decide).
pub fn recover_raw_mounts_under<M: MountOperations>(mount_ops: &M, mount_base: &str, mounts_text: &str) -> (r: Result<
    StartupRecoveryReport,
    FileAccessError,
>)
    ensures
        r matches Ok(rep) && !rep.cleared_lun && rep.disconnected_nbd == 0 && rep.recovered_mounts <= unmounts_of(
            entries_of(split_lines(mounts_text@)),
            mount_base@,
        ).len(),
{
    let entries = mount_entries_from(mounts_text);
    let targets = planned_usb_raw_unmounts(entries.as_slice(), mount_base);
    let ghost n = unmounts_of(entries_of(split_lines(mounts_text@)), mount_base@).len();
    assert(targets@.map_values(|s: String| s@).len() == targets@.len());
    let mut outcomes: Vec<bool> = Vec::new();
    let mut i: usize = 0;
    while i < targets.len()
        invariant
            i <= targets@.len(),
            targets@.len() == n,
            outcomes@.len() == i,
        decreases targets@.len() - i,
    {
        let ok = match mount_ops.umount(targets[i].as_str()) {
            Ok(()) => true,
            Err(_) => false,
        };
        outcomes.push(ok);
        i = i + 1;
    }
    let rep = mount_recovery_report(outcomes.as_slice());
    proof {
        lemma_count_true_le(outcomes@);
    }
    Ok(rep)
}

} // verus!
