use file_access::error::ErrorKind;
use file_access::nbd::manager::{nbd_device_name, NbdDeviceManager};
use file_access::nbd::protocol::{
    build_reply, read_response, status_response, NbdCommand, NbdRequest, NBD_REQUEST_SIZE,
};
use file_access::nbd::sysfs::{
    ensure_partition_scan_disabled, nbd_name_from_device_path, parse_nbd_max_part,
    pid_value_connected, ready_step, NbdPartitionScanStatus,
};
use file_access::publisher::{nbd_device_path, udc_state_is_configured, udc_state_needs_rebind};
use file_access::session::NbdIndexPool;
use file_access::storage_pipeline::{
    pipeline_next, pipeline_start, session_id, should_unmount, stable_hash64, PipelineCleanup,
    PipelineEvent, PipelineStage, SessionTable, StartRefusal,
};

fn request_bytes(magic: u32, ty: u32, handle: u64, from: u64, len: u32) -> [u8; NBD_REQUEST_SIZE] {
    let mut b = [0u8; NBD_REQUEST_SIZE];
    b[0..4].copy_from_slice(&magic.to_be_bytes());
    b[4..8].copy_from_slice(&ty.to_be_bytes());
    b[8..16].copy_from_slice(&handle.to_be_bytes());
    b[16..24].copy_from_slice(&from.to_be_bytes());
    b[24..28].copy_from_slice(&len.to_be_bytes());
    b
}

#[test]
fn parses_read_request_fields() {
    let b = request_bytes(0x2560_9513, 0, 0x1122_3344_5566_7788, 4096, 512);
    let r = NbdRequest::parse(&b).unwrap();
    assert_eq!(r.command, NbdCommand::Read);
    assert_eq!(r.handle, 0x1122_3344_5566_7788);
    assert_eq!(r.from, 4096);
    assert_eq!(r.len, 512);
}

#[test]
fn request_type_uses_low_sixteen_bits() {
    let w = NbdRequest::parse(&request_bytes(0x2560_9513, 0x0001_0001, 1, 0, 0)).unwrap();
    assert_eq!(w.command, NbdCommand::Write);
    let d = NbdRequest::parse(&request_bytes(0x2560_9513, 2, 1, 0, 0)).unwrap();
    assert_eq!(d.command, NbdCommand::Disconnect);
    let f = NbdRequest::parse(&request_bytes(0x2560_9513, 3, 1, 0, 0)).unwrap();
    assert_eq!(f.command, NbdCommand::Flush);
    let u = NbdRequest::parse(&request_bytes(0x2560_9513, 9, 1, 0, 0)).unwrap();
    assert_eq!(u.command, NbdCommand::Unknown(9));
}

#[test]
fn wrong_magic_is_rejected() {
    assert!(NbdRequest::parse(&request_bytes(0x1234_5678, 0, 1, 0, 0)).is_none());
}

#[test]
fn reply_header_reads_back() {
    let r = build_reply(0x0102_0304_0506_0708, 5);
    assert_eq!(r.len(), 16);
    assert_eq!(&r[0..4], &[0x67, 0x44, 0x66, 0x98]);
    assert_eq!(&r[4..8], &[0, 0, 0, 5]);
    assert_eq!(&r[8..16], &[1, 2, 3, 4, 5, 6, 7, 8]);
}

#[test]
fn read_response_carries_data_only_when_complete() {
    let ok = read_response(7, 3, Some(&[9, 8, 7]));
    assert_eq!(ok.len(), 19);
    assert_eq!(&ok[4..8], &[0, 0, 0, 0]);
    assert_eq!(&ok[16..], &[9, 8, 7]);
    let short = read_response(7, 4, Some(&[9, 8, 7]));
    assert_eq!(short.len(), 16);
    assert_eq!(&short[4..8], &[0, 0, 0, 5]);
    let failed = read_response(7, 4, None);
    assert_eq!(failed, build_reply(7, 5));
}

#[test]
fn status_response_maps_success() {
    assert_eq!(status_response(3, true), build_reply(3, 0));
    assert_eq!(status_response(3, false), build_reply(3, 5));
}

#[test]
fn pid_file_values() {
    assert!(pid_value_connected("1234\n"));
    assert!(!pid_value_connected("0\n"));
    assert!(!pid_value_connected("  \n"));
    assert!(pid_value_connected("00"));
}

#[test]
fn readiness_needs_two_ready_polls() {
    assert_eq!(ready_step(true, true, 0), (1, false));
    assert_eq!(ready_step(true, true, 1), (2, true));
    assert_eq!(ready_step(true, false, 1), (0, false));
    assert_eq!(ready_step(false, true, 0), (0, false));
}

#[test]
fn nbd_names_from_paths() {
    assert_eq!(nbd_name_from_device_path("/dev/nbd3").unwrap(), "nbd3");
    assert_eq!(nbd_name_from_device_path("/dev/nbd12/").unwrap(), "nbd12");
    assert_eq!(
        nbd_name_from_device_path("/dev/nbd3p1").unwrap_err().kind,
        ErrorKind::InvalidInput
    );
    assert_eq!(nbd_name_from_device_path("/dev/nbd").unwrap_err().kind, ErrorKind::InvalidInput);
    assert_eq!(nbd_name_from_device_path("/dev/sda").unwrap_err().kind, ErrorKind::InvalidInput);
}

#[test]
fn max_part_values() {
    assert_eq!(parse_nbd_max_part("0\n").unwrap(), NbdPartitionScanStatus::Disabled);
    assert_eq!(parse_nbd_max_part(" 16 ").unwrap(), NbdPartitionScanStatus::Enabled(16));
    assert_eq!(parse_nbd_max_part("x").unwrap_err().kind, ErrorKind::InvalidData);
    assert_eq!(parse_nbd_max_part("").unwrap_err().kind, ErrorKind::InvalidData);
    assert!(ensure_partition_scan_disabled("0").is_ok());
    assert_eq!(ensure_partition_scan_disabled("8").unwrap_err().kind, ErrorKind::InvalidData);
    assert_eq!(ensure_partition_scan_disabled("-1").unwrap_err().kind, ErrorKind::InvalidData);
}

#[test]
fn device_manager_paths() {
    assert_eq!(nbd_device_name(7), "nbd7");
    let m = NbdDeviceManager::new("/sys/block", "/dev", "/sys/module/nbd/parameters/max_part");
    assert_eq!(m.device_path(0), "/dev/nbd0");
    assert_eq!(m.device_path(15), "/dev/nbd15");
    assert_eq!(m.max_part_path(), "/sys/module/nbd/parameters/max_part");
    assert_eq!(m.sysfs().root(), "/sys/block");
    assert_eq!(nbd_device_path(4), "/dev/nbd4");
}

#[test]
fn recovery_lists_connected_devices() {
    let m = NbdDeviceManager::new("/sys/block", "/dev", "/p");
    let values = vec![
        Some("0\n".to_string()),
        Some("812\n".to_string()),
        None,
        Some("77".to_string()),
    ];
    assert_eq!(m.connected_devices_for_recovery(&values), vec!["/dev/nbd1", "/dev/nbd3"]);
}

#[test]
fn udc_states() {
    assert!(udc_state_needs_rebind(None));
    assert!(udc_state_needs_rebind(Some("not attached")));
    assert!(udc_state_needs_rebind(Some("powered")));
    assert!(udc_state_needs_rebind(Some("default")));
    assert!(!udc_state_needs_rebind(Some("configured")));
    assert!(udc_state_is_configured(Some("configured")));
    assert!(!udc_state_is_configured(Some("suspended")));
    assert!(!udc_state_is_configured(None));
}

#[test]
fn pool_acquire_then_release_restores() {
    let mut pool = NbdIndexPool::new(2);
    assert_eq!(pool.acquire(), Some(1));
    assert_eq!(pool.acquire(), Some(0));
    assert_eq!(pool.acquire(), None);
    pool.release(0);
    assert_eq!(pool.acquire(), Some(0));
    pool.release(0);
    pool.release(1);
    assert_eq!(pool.acquire(), Some(1));
}

#[test]
fn fnv1a_hash_values() {
    assert_eq!(stable_hash64(""), 0xcbf2_9ce4_8422_2325);
    assert_eq!(stable_hash64("a"), 0xaf63_dc4c_8601_ec8c);
}

#[test]
fn session_id_is_short_and_hides_the_sysfs_path() {
    let id = session_id("/sys/devices/SN-SHORT-ID");
    assert!(id.starts_with("storage_"));
    assert_eq!(id.len(), "storage_".len() + 16);
    assert!(!id.contains("/sys/"));
    assert!(!id.contains("devices"));
    assert_eq!(session_id(""), "storage_cbf29ce484222325");
}

#[test]
fn table_admits_one_session() {
    let mut t = SessionTable::new(4);
    assert!(!t.has_active_storage());
    assert_eq!(t.start("", "/sys/devices/SN-0"), Err(StartRefusal::EmptyDevicePath));
    assert_eq!(t.start("/dev/sda1", "/sys/devices/SN-1"), Ok(3));
    assert!(t.has_active_storage());
    assert_eq!(t.start("/dev/sdb1", "/sys/devices/SN-2"), Err(StartRefusal::SessionActive));
}

#[test]
fn table_reports_exhausted_pool() {
    let mut t = SessionTable::new(0);
    assert_eq!(t.start("/dev/sda1", "/sys/devices/SN-1"), Err(StartRefusal::NbdPoolExhausted));
    assert!(!t.has_active_storage());
}

#[test]
fn stop_by_parent_is_idempotent_on_the_table() {
    let mut t = SessionTable::new(4);
    t.start("/dev/sda1", "/sys/devices/SN-3").unwrap();
    assert!(t.record_mount("/sys/devices/SN-3", "/mnt/usb-control/raw/x".to_string()));
    assert!(t.record_publish("/sys/devices/SN-3"));
    assert!(t.take_by_parent("/sys/devices/OTHER").is_none());
    let s = t.take_by_parent("/sys/devices/SN-3").unwrap();
    assert_eq!(s.nbd_index, 3);
    assert_eq!(s.mount_path.as_deref(), Some("/mnt/usb-control/raw/x"));
    assert!(s.published);
    assert!(t.take_by_parent("/sys/devices/SN-3").is_none());
    assert!(!t.has_active_storage());
    assert!(!t.record_mount("/sys/devices/SN-3", "/m".to_string()));
    assert!(!t.record_publish("/sys/devices/SN-3"));
}

#[test]
fn failed_mount_frees_the_index_for_the_next_session() {
    let mut t = SessionTable::new(1);
    let i = t.start("/dev/sda1", "/sys/devices/SN-4").unwrap();
    assert_eq!(i, 0);
    t.remove_failed("/sys/devices/SN-4", i);
    assert!(!t.has_active_storage());
    assert_eq!(t.start("/dev/sdb1", "/sys/devices/SN-5"), Ok(0));
}

#[test]
fn stop_all_takes_every_session() {
    let mut t = SessionTable::new(2);
    assert!(t.take_all().is_empty());
    t.start("/dev/sda1", "/sys/devices/SN-6").unwrap();
    let all = t.take_all();
    assert_eq!(all.len(), 1);
    assert_eq!(all[0].parent_path, "/sys/devices/SN-6");
    assert!(!t.has_active_storage());
    t.release_index(all[0].nbd_index);
    assert_eq!(t.start("/dev/sda1", "/sys/devices/SN-7"), Ok(1));
}

#[test]
fn unmount_unless_known_absent() {
    assert!(should_unmount(Some(true)));
    assert!(!should_unmount(Some(false)));
    assert!(should_unmount(None));
}

#[test]
fn pipeline_runs_to_mapped() {
    let s = pipeline_start();
    assert_eq!(s.next, PipelineStage::Mount);
    let u = s.update.unwrap();
    assert_eq!((u.status.as_str(), u.stage.as_str()), ("processing", "mount"));

    let s = pipeline_next(PipelineStage::Mount, PipelineEvent::Mounted);
    assert_eq!(s.next, PipelineStage::RecordMount);
    assert!(s.update.is_none());

    let s = pipeline_next(PipelineStage::RecordMount, PipelineEvent::MountRecorded { session_present: true });
    assert_eq!(s.next, PipelineStage::Scan);
    assert_eq!(s.update.unwrap().stage, "scan");

    let s = pipeline_next(PipelineStage::Scan, PipelineEvent::Scanned);
    assert_eq!(s.next, PipelineStage::MediaBuild);
    assert_eq!(s.update.unwrap().stage, "media_build");

    let s = pipeline_next(PipelineStage::MediaBuild, PipelineEvent::MediaBuilt);
    assert_eq!(s.next, PipelineStage::Publish);

    let s = pipeline_next(PipelineStage::Publish, PipelineEvent::Published { session_present: true });
    assert_eq!(s.next, PipelineStage::Finished);
    assert_eq!(s.cleanup, PipelineCleanup::Nothing);
    let u = s.update.unwrap();
    assert_eq!(u.status, "mapped");
    assert_eq!(u.stage, "publish");
    assert!(u.fail_code.is_empty());
}

#[test]
fn mount_failure_records_and_removes_session() {
    let s = pipeline_next(PipelineStage::Mount, PipelineEvent::MountFailed("no fs".to_string()));
    assert_eq!(s.next, PipelineStage::Finished);
    assert_eq!(s.cleanup, PipelineCleanup::RemoveFailedSession);
    let u = s.update.unwrap();
    assert_eq!(u.status, "failed");
    assert_eq!(u.stage, "mount");
    assert_eq!(u.fail_code, "mount_failed");
    assert_eq!(u.fail_reason, "no fs");
}

#[test]
fn pipeline_failures_and_cancellations() {
    let s = pipeline_next(PipelineStage::Scan, PipelineEvent::ScanFailed("io".to_string()));
    assert_eq!(s.cleanup, PipelineCleanup::CleanupSession("scan_failed".to_string()));
    assert_eq!(s.update.unwrap().fail_code, "scan_failed");
    let s = pipeline_next(PipelineStage::Scan, PipelineEvent::Cancelled);
    assert_eq!(s.cleanup, PipelineCleanup::CleanupSession("scan_cancelled".to_string()));
    assert!(s.update.is_none());
    let s = pipeline_next(PipelineStage::MediaBuild, PipelineEvent::MediaBuildFailed("big".to_string()));
    assert_eq!(s.cleanup, PipelineCleanup::CleanupSession("media_build_failed".to_string()));
    let s = pipeline_next(PipelineStage::Publish, PipelineEvent::PublishFailed("udc".to_string()));
    assert_eq!(s.cleanup, PipelineCleanup::CleanupSession("publish_failed".to_string()));
    assert_eq!(s.update.unwrap().stage, "publish");
    let s = pipeline_next(PipelineStage::Publish, PipelineEvent::Cancelled);
    assert_eq!(s.cleanup, PipelineCleanup::CleanupSession("publish_cancelled".to_string()));
    let s = pipeline_next(PipelineStage::RecordMount, PipelineEvent::MountRecorded { session_present: false });
    assert_eq!(
        s.cleanup,
        PipelineCleanup::RollbackMount("session_removed_before_mount_record".to_string())
    );
    let s = pipeline_next(PipelineStage::Publish, PipelineEvent::Published { session_present: false });
    assert_eq!(s.cleanup, PipelineCleanup::RollbackPublish("session_removed_after_publish".to_string()));
    let s = pipeline_next(PipelineStage::Mount, PipelineEvent::Scanned);
    assert_eq!(s.next, PipelineStage::Finished);
    assert_eq!(s.cleanup, PipelineCleanup::Nothing);
    assert!(s.update.is_none());
}

#[test]
fn session_mount_path_is_owned_by_session_id() {
    let id = session_id("/sys/devices/SN-SESSION-MOUNT");
    let p = file_access::storage_pipeline::session_mount_path(&id);
    assert_eq!(p, format!("/mnt/usb-control/raw/{}", id));
    assert_ne!(p, "/mnt/usb-control/raw/sda1");
}

#[test]
fn pool_hands_out_each_index_once_until_released() {
    let mut pool = NbdIndexPool::new(3);
    let a = pool.acquire().unwrap();
    let b = pool.acquire().unwrap();
    let c = pool.acquire().unwrap();
    let mut got = vec![a, b, c];
    got.sort();
    assert_eq!(got, vec![0, 1, 2]);
    assert_eq!(pool.acquire(), None);
    pool.release(b);
    pool.release(b);
    assert_eq!(pool.acquire(), Some(b));
    assert_eq!(pool.acquire(), None);
}

#[test]
fn pool_after_mixed_acquires_and_releases() {
    let mut pool = NbdIndexPool::new(2);
    let a = pool.acquire().unwrap();
    pool.release(a);
    let b = pool.acquire().unwrap();
    assert_eq!(b, a);
    let c = pool.acquire().unwrap();
    assert_ne!(b, c);
    assert!(b < 2 && c < 2);
    assert_eq!(pool.acquire(), None);
    pool.release(c);
    pool.release(b);
    assert_eq!(pool.acquire(), Some(b));
    assert_eq!(pool.acquire(), Some(c));
    assert_eq!(pool.acquire(), None);
}
