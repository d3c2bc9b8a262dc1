use file_access::exfat::transaction::TransactionError;
use std::sync::Mutex;

use file_access::autorun::{is_whitespace, trim_chars};
use file_access::block_backend::BlockWriteOutcome;
use file_access::error::{io_error, ErrorKind, FileAccessError, RecoverablePolicyRejection};
use file_access::exfat::volume::VirtualVolume;
use file_access::gadget::{
    first_udc_name, mass_storage_function, select_lun, udc_is_bound, GadgetError, GadgetRuntime,
    LunCandidate, MassStorageLun,
};
use file_access::nbd::io::is_retryable_io_error;
use file_access::raw_mount::MountOperations;
use file_access::startup_recovery::{mount_recovery_report, recover_raw_mounts_under, StartupRecoveryConfig};
use file_access::strings::{decimal_string, hex_string};
use file_access::text::{char_from_u32, push_char};
use file_access::types::{ControlledEntry, PolicySnapshot};
use file_access::write_back::{WriteBackAction, WriteBackManager};

fn lun(g: &str, f: &str) -> MassStorageLun {
    MassStorageLun {
        gadget_name: g.to_string(),
        function_name: f.to_string(),
        gadget_dir: format!("/cfg/{g}"),
        lun_dir: format!("/cfg/{g}/functions/{f}/lun.0"),
    }
}

#[test]
fn lun_selection_prefers_linked_then_names() {
    let cs = vec![
        LunCandidate { unlinked: true, lun: lun("a", "mass_storage.0") },
        LunCandidate { unlinked: false, lun: lun("g2", "mass_storage.1") },
        LunCandidate { unlinked: false, lun: lun("g1", "mass_storage.9") },
        LunCandidate { unlinked: false, lun: lun("g1", "mass_storage.1") },
    ];
    assert_eq!(select_lun(&cs), Some(3));
    assert_eq!(select_lun(&[]), None);
    let same = vec![
        LunCandidate { unlinked: false, lun: lun("g", "f") },
        LunCandidate { unlinked: false, lun: lun("g", "f") },
    ];
    assert_eq!(select_lun(&same), Some(0));
}

#[test]
fn gadget_runtime_from_candidates() {
    let cs = vec![LunCandidate { unlinked: false, lun: lun("g1", "mass_storage.usb0") }];
    let g = GadgetRuntime::from_candidates(&cs, "/sys/class/udc").unwrap();
    assert_eq!(g.gadget_name(), "g1");
    assert_eq!(g.function_name(), "mass_storage.usb0");
    assert_eq!(g.gadget_dir(), "/cfg/g1");
    assert_eq!(g.lun_dir(), "/cfg/g1/functions/mass_storage.usb0/lun.0");
    assert_eq!(g.udc_root(), "/sys/class/udc");
    assert!(matches!(GadgetRuntime::from_candidates(&[], "/u"), Err(GadgetError::LunNotFound)));
}

#[test]
fn gadget_names() {
    assert!(mass_storage_function("mass_storage.usb0"));
    assert!(!mass_storage_function("acm.usb0"));
    let names = vec!["musb".to_string(), "".to_string(), "dwc2".to_string()];
    assert_eq!(first_udc_name(&names), Some(2));
    assert_eq!(first_udc_name(&["".to_string()]), None);
    assert!(udc_is_bound("fe980000.usb\n"));
    assert!(!udc_is_bound(" \n"));
}

fn entry(name: &str, size: u64) -> ControlledEntry {
    ControlledEntry {
        real_path: format!("/mnt/usb/{name}"),
        virtual_name: name.to_string(),
        file_size: size,
        is_dir: false,
        is_virus: false,
        exec_type: None,
        extension: String::new(),
        is_autorun_target: false,
        is_autorun_inf: false,
        is_root_shell_script: false,
        children: vec![],
    }
}

fn snapshot(blacklist: &[&str]) -> PolicySnapshot {
    PolicySnapshot {
        exec_control_enabled: false,
        file_type_blacklist_enabled: !blacklist.is_empty(),
        auto_read_control_enabled: false,
        blacklist_extensions: blacklist.iter().map(|e| e.to_string()).collect(),
        permission: 1,
    }
}

#[test]
fn write_back_decisions() {
    let mut e = entry("a.txt", 700);
    e.extension = "txt".to_string();
    let volume = VirtualVolume::build(&[e], &snapshot(&[])).unwrap();
    let sectors = volume.find_file_data_sectors("a.txt");
    let mut m = WriteBackManager::new("/mnt/usb", false);
    assert_eq!(
        m.handle_write(sectors[1], &[0u8; 512], &volume).unwrap(),
        WriteBackAction::WriteFile { real_path: "/mnt/usb/a.txt".to_string(), offset: 512, len: 188 }
    );
    assert_eq!(
        m.handle_write(sectors[0], &[0u8; 100], &volume).unwrap(),
        WriteBackAction::WriteFile { real_path: "/mnt/usb/a.txt".to_string(), offset: 0, len: 100 }
    );
    assert_eq!(m.handle_write(0, &[0u8; 512], &volume).unwrap(), WriteBackAction::Skip);
    let dirs = volume.directory_cluster_entries();
    let root = volume.layout().cluster_to_sector(dirs[0].1[0]);
    assert_eq!(m.handle_write(root, &[0u8; 512], &volume).unwrap_err().kind, ErrorKind::Unsupported);
    let past = volume.total_sectors();
    assert_eq!(m.handle_write(past, &[0u8; 512], &volume).unwrap_err().kind, ErrorKind::Unsupported);
    assert!(m.flush().is_ok());
    let mut ro = WriteBackManager::new("/mnt/usb", true);
    assert_eq!(ro.handle_write(sectors[0], &[0u8; 512], &volume).unwrap(), WriteBackAction::Skip);
}

#[test]
fn write_back_refuses_blocked_files() {
    let mut e = entry("x.exe", 100);
    e.extension = "exe".to_string();
    let volume = VirtualVolume::build(&[e], &snapshot(&["exe"])).unwrap();
    let sectors = volume.find_file_data_sectors("x.exe");
    let mut m = WriteBackManager::new("/mnt/usb", false);
    assert_eq!(
        m.handle_write(sectors[0], &[0u8; 512], &volume).unwrap_err().kind,
        ErrorKind::PermissionDenied
    );
}

#[test]
fn policy_rejection_texts() {
    let r = RecoverablePolicyRejection::blocked_placeholder(
        "/a.exe".to_string(),
        "write",
        "L2".to_string(),
    );
    assert_eq!(r.to_outcome_reason(), "blocked placeholder /a.exe rejected for write: L2");
    let e = r.clone().into_io_error();
    assert_eq!(e.kind, ErrorKind::PermissionDenied);
    assert_eq!(e.message, "policy forbids modifying the file: path=/a.exe operation=write reason=L2");
    assert_eq!(RecoverablePolicyRejection::from_io_error(&e), Some(&r));
    assert_eq!(RecoverablePolicyRejection::from_io_error(&io_error(ErrorKind::Other, "x")), None);
}

#[test]
fn block_outcomes_and_retries() {
    assert!(BlockWriteOutcome::Committed.is_success_for_block_device());
    assert!(BlockWriteOutcome::PolicyRejectedAndRestored { reason: "r".to_string() }.is_success_for_block_device());
    assert!(is_retryable_io_error(&io_error(ErrorKind::Interrupted, "eintr")));
    assert!(!is_retryable_io_error(&io_error(ErrorKind::TimedOut, "slow")));
}

struct FakeMounts {
    fail_on: &'static str,
    unmounted: Mutex<Vec<String>>,
}

impl MountOperations for FakeMounts {
    fn is_mounted(&self, _dev_path: &str) -> Result<bool, FileAccessError> {
        Ok(false)
    }
    fn mount(&self, _dev_path: &str, _mount_point: &str, _fs_type: &str) -> Result<(), FileAccessError> {
        Ok(())
    }
    fn umount(&self, mount_point: &str) -> Result<(), FileAccessError> {
        if mount_point == self.fail_on {
            return Err(FileAccessError::UmountFailed(mount_point.to_string()));
        }
        self.unmounted.lock().unwrap().push(mount_point.to_string());
        Ok(())
    }
    fn detect_fs_type(&self, _dev_path: &str) -> Result<String, FileAccessError> {
        Ok("vfat".to_string())
    }
}

#[test]
fn startup_recovery_unmounts_leftovers() {
    let ops = FakeMounts { fail_on: "/mnt/usb_raw/sdb1", unmounted: Mutex::new(vec![]) };
    let text = "/dev/sda1 /mnt/usb_raw/sda1 vfat rw 0 0\n/dev/sdb1 /mnt/usb_raw/sdb1 vfat rw 0 0\n/dev/root / ext4 rw 0 0\n/dev/sdc1 /mnt/usb_raw/sdc1 exfat rw 0 0\n";
    let report = recover_raw_mounts_under(&ops, "/mnt/usb_raw", text).unwrap();
    assert_eq!(report.recovered_mounts, 2);
    assert!(!report.cleared_lun);
    assert_eq!(report.disconnected_nbd, 0);
    assert_eq!(*ops.unmounted.lock().unwrap(), vec!["/mnt/usb_raw/sda1", "/mnt/usb_raw/sdc1"]);
    let c = StartupRecoveryConfig::production("/cfg/lun.0/file".to_string());
    assert_eq!(c.mount_base, "/mnt/usb_raw");
    assert_eq!(c.nbd_pool_size, 4);
    assert_eq!(c.lun_file, "/cfg/lun.0/file");
}

#[test]
fn number_texts() {
    assert_eq!(decimal_string(0), "0");
    assert_eq!(decimal_string(18446744073709551615), "18446744073709551615");
    assert_eq!(hex_string(0xBEEF, 8), "0000beef");
    assert_eq!(hex_string(0x12345, 2), "45");
}

#[test]
fn char_helpers() {
    assert_eq!(char_from_u32(0x41), Some('A'));
    assert_eq!(char_from_u32(0xD800), None);
    assert_eq!(char_from_u32(0x110000), None);
    let mut s = String::from("ab");
    push_char(&mut s, 'ç');
    assert_eq!(s, "abç");
    assert!(is_whitespace(' '));
    assert!(is_whitespace('\u{3000}'));
    assert!(!is_whitespace('x'));
    let t: Vec<char> = " \t x y \r\n".chars().collect();
    assert_eq!(trim_chars(&t).iter().collect::<String>(), "x y");
}

#[test]
fn mount_recovery_report_counts_successful_unmounts() {
    let r = mount_recovery_report(&[true, false, true]);
    assert_eq!(r.recovered_mounts, 2);
    assert_eq!(r.disconnected_nbd, 0);
    assert!(!r.cleared_lun);
    let empty = mount_recovery_report(&[]);
    assert_eq!(empty.recovered_mounts, 0);
}

#[test]
fn transaction_error_text_is_its_debug_text() {
    let errors = vec![
        TransactionError::UnknownDirectoryOwner { sector: 4096 },
        TransactionError::MissingDirectoryImage { parent: "/docs".to_string() },
        TransactionError::DirectoryWriteBeforeStart { parent: "/a\"b\\c\n".to_string(), sector: 0 },
        TransactionError::UnsupportedDirectoryRewrite { parent: "/x\ty\u{1b}".to_string() },
        TransactionError::BlockedPlaceholderRewrite { virtual_path: "/evil.exe".to_string() },
        TransactionError::UnresolvedClusterChain { first_cluster: 7, data_length: 123456789 },
    ];
    for e in &errors {
        assert_eq!(e.debug_text(), format!("{e:?}"));
    }
}
