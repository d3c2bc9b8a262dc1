use file_access::exfat::sector_owner::SectorOwner;
use file_access::exfat::transaction::{PendingTransaction, ResolveStatus, TransactionError, TransactionWrite};
use file_access::exfat::transaction_resolver::TransactionResolver;
use file_access::block_backend::BlockWriteOutcome;
use file_access::error::ErrorKind;
use file_access::exfat::read_plan::ReadPiece;
use file_access::exfat::runtime_state::commit::RealFsOp;
use file_access::exfat::runtime_state::write::StepAction;
use file_access::exfat::runtime_state::ExfatRuntimeState;
use file_access::exfat::volume::VirtualVolume;
use file_access::types::{ControlledEntry, ExecFileType, PolicySnapshot, SectorContent};

fn entry(name: &str, size: u64) -> ControlledEntry {
    ControlledEntry {
        real_path: format!("/mnt/usb/{name}"),
        virtual_name: name.to_string(),
        file_size: size,
        is_dir: false,
        is_virus: false,
        exec_type: None,
        extension: "txt".to_string(),
        is_autorun_target: false,
        is_autorun_inf: false,
        is_root_shell_script: false,
        children: vec![],
    }
}

fn open_snapshot(permission: i32) -> PolicySnapshot {
    PolicySnapshot {
        exec_control_enabled: false,
        file_type_blacklist_enabled: false,
        auto_read_control_enabled: false,
        blacklist_extensions: vec![],
        permission,
    }
}

#[test]
fn blocked_file_data_sector_is_marked_blocked() {
    let entry = ControlledEntry {
        real_path: "/tmp/usb/tool.bin".to_string(),
        virtual_name: "tool.bin".to_string(),
        file_size: 512,
        is_dir: false,
        is_virus: false,
        exec_type: Some(ExecFileType::Elf),
        extension: "bin".to_string(),
        is_autorun_target: false,
        is_autorun_inf: false,
        is_root_shell_script: false,
        children: vec![],
    };
    let snapshot = PolicySnapshot {
        exec_control_enabled: true,
        file_type_blacklist_enabled: false,
        auto_read_control_enabled: false,
        blacklist_extensions: vec![],
        permission: 1,
    };

    let volume = VirtualVolume::build(&[entry], &snapshot).unwrap();
    let sectors = volume.find_file_data_sectors("tool.bin");
    assert!(!sectors.is_empty());
    match volume.read_sector(sectors[0]) {
        SectorContent::FileData { blocked, .. } => assert!(blocked),
        other => panic!("expected file data sector, got {other:?}"),
    }
}

#[test]
fn allowed_file_maps_to_its_real_path() {
    let volume = VirtualVolume::build(&[entry("a.txt", 1000)], &open_snapshot(1)).unwrap();
    let sectors = volume.find_file_data_sectors("a.txt");
    assert_eq!(sectors.len(), 2);
    assert_eq!(sectors[1], sectors[0] + 1);
    match volume.read_sector(sectors[0]) {
        SectorContent::FileData { real_path, offset, valid_bytes, blocked } => {
            assert_eq!(real_path, "/mnt/usb/a.txt");
            assert_eq!(offset, 0);
            assert_eq!(valid_bytes, 512);
            assert!(!blocked);
        }
        other => panic!("expected file data, got {other:?}"),
    }
    match volume.read_sector(sectors[1]) {
        SectorContent::FileData { offset, valid_bytes, .. } => {
            assert_eq!(offset, 512);
            assert_eq!(valid_bytes, 488);
        }
        other => panic!("expected file data, got {other:?}"),
    }
    assert!(volume.find_file_data_sectors("missing").is_empty());
}

#[test]
fn volume_starts_with_mbr_and_boot_sector() {
    let volume = VirtualVolume::build(&[entry("a.txt", 10)], &open_snapshot(1)).unwrap();
    match volume.read_sector(0) {
        SectorContent::Metadata(d) => {
            assert_eq!(d.len(), 512);
            assert_eq!(&d[510..512], &[0x55, 0xAA]);
            assert_eq!(d[450], 0x07);
        }
        other => panic!("expected the MBR, got {other:?}"),
    }
    match volume.read_sector(2048) {
        SectorContent::Metadata(d) => assert_eq!(&d[3..11], b"EXFAT   "),
        other => panic!("expected the boot sector, got {other:?}"),
    }
    assert!(matches!(volume.read_sector(volume.total_sectors()), SectorContent::Zero));
    let dirs = volume.directory_cluster_entries();
    assert!(!dirs.is_empty());
    let root_sector = volume.layout().cluster_to_sector(dirs[0].1[0]);
    assert!(volume.is_directory_sector(root_sector));
    assert!(!volume.is_directory_sector(0));
    let ranges = volume.file_data_range_entries();
    assert_eq!(ranges.len(), 1);
    assert_eq!(ranges[0].real_path, "/mnt/usb/a.txt");
    assert_eq!(ranges[0].byte_len, 10);
}

#[test]
fn virus_file_has_no_data() {
    let mut v = entry("evil.txt", 5000);
    v.is_virus = true;
    let volume = VirtualVolume::build(&[v], &open_snapshot(1)).unwrap();
    assert!(volume.find_file_data_sectors("evil.txt").is_empty());
}

fn state(permission: i32) -> ExfatRuntimeState {
    let entries = vec![entry("a.txt", 1000), entry("b.txt", 0)];
    ExfatRuntimeState::from_controlled_tree("/mnt/usb", &entries, open_snapshot(permission), 0).unwrap()
}

#[test]
fn runtime_state_indexes_the_tree() {
    let s = state(1);
    let a = s.lookup_path("/a.txt").unwrap();
    assert_eq!(a.size, 1000);
    assert_eq!(a.real_path, "/mnt/usb/a.txt");
    assert!(s.lookup_path("/nope").is_none());
    assert!(s.validate_consistency().is_ok());
    assert_eq!(s.end_byte_exclusive(), s.total_sectors() * 512);
}

#[test]
fn read_plan_of_the_mbr_and_past_the_end() {
    let s = state(1);
    let plan = s.read_plan(0, 512).unwrap();
    assert_eq!(plan.len(), 1);
    match &plan[0] {
        ReadPiece::Bytes(b) => assert_eq!(&b[510..512], &[0x55, 0xAA]),
        other => panic!("expected bytes, got {other:?}"),
    }
    let end = s.end_byte_exclusive();
    assert_eq!(s.read_plan(end - 10, 20).unwrap_err().kind, ErrorKind::UnexpectedEof);
    assert!(s.read_plan(end, 0).unwrap().is_empty());
}

#[test]
fn read_plan_of_file_data() {
    let s = state(1);
    let volume = VirtualVolume::build(&[entry("a.txt", 1000), entry("b.txt", 0)], &open_snapshot(1)).unwrap();
    let sector = volume.find_file_data_sectors("a.txt")[1];
    let plan = s.read_plan(sector * 512 + 100, 412).unwrap();
    assert_eq!(plan.len(), 1);
    match &plan[0] {
        ReadPiece::File { real_path, offset, read_len, take } => {
            assert_eq!(real_path, "/mnt/usb/a.txt");
            assert_eq!(*offset, 612);
            assert_eq!(*read_len, 388);
            assert_eq!(*take, 412);
        }
        other => panic!("expected a file piece, got {other:?}"),
    }
}

#[test]
fn read_only_write_is_refused() {
    let mut s = state(0);
    let (_, action) = s.write_at(0, &[0u8; 512]);
    match action {
        StepAction::Finish(Err(e)) => assert_eq!(e.kind, ErrorKind::PermissionDenied),
        other => panic!("expected a refusal, got {other:?}"),
    }
}

#[test]
fn misaligned_write_is_refused() {
    let mut s = state(1);
    let (_, action) = s.write_at(100, &[0u8; 512]);
    match action {
        StepAction::Finish(Err(e)) => assert_eq!(e.kind, ErrorKind::InvalidInput),
        other => panic!("expected a refusal, got {other:?}"),
    }
}

#[test]
fn flush_without_pending_writes_syncs() {
    let mut s = state(1);
    let (_, action) = s.flush();
    assert!(matches!(action, StepAction::SyncMountRoot));
}

#[test]
fn file_data_write_commits_to_the_real_file() {
    let mut s = state(1);
    let volume = VirtualVolume::build(&[entry("a.txt", 1000), entry("b.txt", 0)], &open_snapshot(1)).unwrap();
    let sector = volume.find_file_data_sectors("a.txt")[1];
    let data = vec![7u8; 512];
    let (run, action) = s.write_at(sector * 512, &data);
    let ops = match action {
        StepAction::RealFs(ops) => ops,
        other => panic!("expected real file system work, got {other:?}"),
    };
    assert!(run.is_awaiting_commit());
    match &ops[0] {
        RealFsOp::WriteAt { virtual_path, offset, data } => {
            assert_eq!(virtual_path, "/a.txt");
            assert_eq!(*offset, 512);
            assert_eq!(data.len(), 488);
        }
        other => panic!("expected a file write, got {other:?}"),
    }
    let (_, done) = s.commit_done(run, Ok(()));
    match done {
        StepAction::Finish(Ok(BlockWriteOutcome::Committed)) => {}
        other => panic!("expected a commit, got {other:?}"),
    }
}

#[test]
fn failed_commit_ends_the_write_with_its_kind() {
    let mut s = state(1);
    let volume = VirtualVolume::build(&[entry("a.txt", 1000), entry("b.txt", 0)], &open_snapshot(1)).unwrap();
    let sector = volume.find_file_data_sectors("a.txt")[0];
    let (run, action) = s.write_at(sector * 512, &[1u8; 512]);
    assert!(matches!(action, StepAction::RealFs(_)));
    let err = file_access::error::io_error(ErrorKind::NotFound, "gone");
    let (_, done) = s.commit_done(run, Err(err));
    match done {
        StepAction::Finish(Err(e)) => assert_eq!(e.kind, ErrorKind::NotFound),
        other => panic!("expected the failure, got {other:?}"),
    }
}

#[test]
fn rewriting_a_directory_sector_unchanged_commits_nothing() {
    let mut s = state(1);
    let volume = VirtualVolume::build(&[entry("a.txt", 1000), entry("b.txt", 0)], &open_snapshot(1)).unwrap();
    let dirs = volume.directory_cluster_entries();
    let root_sector = volume.layout().cluster_to_sector(dirs[0].1[0]);
    let plan = s.read_plan(root_sector * 512, 512).unwrap();
    let bytes = match &plan[0] {
        ReadPiece::Bytes(b) => b.clone(),
        other => panic!("expected directory bytes, got {other:?}"),
    };
    let (_, action) = s.write_at(root_sector * 512, &bytes);
    match action {
        StepAction::Finish(Ok(BlockWriteOutcome::Committed)) => {}
        other => panic!("expected a commit, got {other:?}"),
    }
    let (_, action) = s.flush();
    assert!(matches!(action, StepAction::SyncMountRoot));
}

#[test]
fn boot_region_write_is_read_back() {
    let mut s = state(1);
    let sector = file_access::layout::PARTITION_OFFSET_SECTORS + 1;
    assert_eq!(s.sector_owner(sector), SectorOwner::BootRegion);
    let data = vec![0xABu8; 512];
    let (_, action) = s.write_at(sector * 512, &data);
    match action {
        StepAction::Finish(Ok(BlockWriteOutcome::Committed)) => {}
        other => panic!("expected a commit, got {other:?}"),
    }
    let plan = s.read_plan(sector * 512, 512).unwrap();
    match &plan[0] {
        ReadPiece::Bytes(b) => assert_eq!(b, &data),
        other => panic!("expected the written bytes, got {other:?}"),
    }
}

#[test]
fn short_directory_write_is_refused() {
    let mut s = state(1);
    let volume = VirtualVolume::build(&[entry("a.txt", 1000), entry("b.txt", 0)], &open_snapshot(1)).unwrap();
    let dirs = volume.directory_cluster_entries();
    let root_sector = volume.layout().cluster_to_sector(dirs[0].1[0]);
    let (_, action) = s.write_at(root_sector * 512, &[0u8; 100]);
    match action {
        StepAction::Finish(Err(e)) => assert_eq!(e.kind, ErrorKind::InvalidInput),
        other => panic!("expected a refusal, got {other:?}"),
    }
}

#[test]
fn short_write_of_an_unknown_directory_owner_is_invalid() {
    let s = state(1);
    let mut tx = PendingTransaction::new(1);
    tx.record_write(TransactionWrite::Directory {
        sector: 777,
        owner: SectorOwner::DirectoryData { node_id: 999 },
        data: vec![1u8; 10],
    });
    match TransactionResolver::new().resolve_closed(&tx, &s) {
        Ok(ResolveStatus::Invalid(TransactionError::UnknownDirectoryOwner { sector })) => assert_eq!(sector, 777),
        other => panic!("expected an unknown owner, got {other:?}"),
    }
}

#[test]
fn every_entry_of_a_nested_tree_is_found_at_its_path() {
    let mut inner = entry("inner", 0);
    inner.is_dir = true;
    inner.real_path = "/mnt/usb/outer/inner".to_string();
    inner.children = vec![entry("deep.txt", 3)];
    let mut outer = entry("outer", 0);
    outer.is_dir = true;
    outer.children = vec![entry("x.bin", 5000), inner];
    let entries = vec![outer, entry("top.txt", 1)];
    let s = ExfatRuntimeState::from_controlled_tree("/mnt/usb", &entries, open_snapshot(1), 0).unwrap();
    assert!(s.validate_consistency().is_ok());
    let o = s.lookup_path("/outer").unwrap();
    assert!(o.is_dir() && o.name == "outer");
    let x = s.lookup_path("/outer/x.bin").unwrap();
    assert!(!x.is_dir() && x.name == "x.bin");
    let i = s.lookup_path("/outer/inner").unwrap();
    assert!(i.is_dir() && i.name == "inner");
    let d = s.lookup_path("/outer/inner/deep.txt").unwrap();
    assert!(!d.is_dir() && d.name == "deep.txt");
    assert!(s.lookup_path("/top.txt").is_some());
    assert_eq!(s.lookup_node_id("/").map(|id| id.0), Some(1));
    assert!(s.directory_store().directory_clusters("/").is_some());
    assert!(s.directory_store().directory_clusters("/outer").is_some());
}

#[test]
fn runtime_state_builds_for_many_files_and_directories() {
    let mut entries = Vec::new();
    for k in 0..20u64 {
        let mut dir = entry(&format!("d{k}"), 0);
        dir.is_dir = true;
        let mut inner = entry(&format!("f{k}.bin"), 5000 + k * 4096);
        inner.real_path = format!("/mnt/usb/d{k}/f{k}.bin");
        dir.children = vec![inner];
        entries.push(dir);
        entries.push(entry(&format!("t{k}.txt"), 700 * k));
    }
    let s = ExfatRuntimeState::from_controlled_tree("/mnt/usb", &entries, open_snapshot(1), 0).unwrap();
    assert!(s.validate_consistency().is_ok());
    assert!(s.lookup_path("/d7/f7.bin").is_some());
}
