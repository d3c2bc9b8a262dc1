use file_access::block_backend::BlockWriteOutcome;
use file_access::exfat::read_plan::ReadPiece;
use file_access::exfat::volume::VirtualVolume;
use file_access::nbd::volume_io::{volume_read_pieces, volume_write_actions};
use file_access::write_back::{WriteBackAction, WriteBackManager};
use file_access::error::{io_error, ErrorKind};
use file_access::exec_detect::{characteristics_offset, header_kind, pe_offset, pe_type, HeaderKind};
use file_access::exfat::allocator::{ExfatAllocator, FileExtent, SectorClass, VirtualSector};
use file_access::gadget_bootstrap::{
    is_adb_link_name, validate_function_name, GadgetBootstrap, GadgetBootstrapConfig, GadgetBootstrapError,
};
use file_access::nbd::protocol::{build_reply, NBD_REQUEST_SIZE};
use file_access::nbd::request_loop::{next_action, write_reply, LoopAction};
use file_access::types::{ControlledEntry, ExecFileType, PolicySnapshot};
use file_access::vfs::index::VfsIndex;
use file_access::vfs::node::NodeId;

fn entry(name: &str, size: u64) -> ControlledEntry {
    ControlledEntry {
        real_path: format!("/mnt/usb/{name}"),
        virtual_name: name.to_string(),
        file_size: size,
        is_dir: false,
        is_virus: false,
        exec_type: None,
        extension: String::new(),
        is_autorun_target: false,
        is_autorun_inf: false,
        is_root_shell_script: false,
        children: vec![],
    }
}

fn open_snapshot() -> PolicySnapshot {
    PolicySnapshot {
        exec_control_enabled: false,
        file_type_blacklist_enabled: false,
        auto_read_control_enabled: false,
        blacklist_extensions: vec![],
        permission: 1,
    }
}

#[test]
fn allocator_maps_file_data_from_the_gap_on() {
    let mut virus = entry("v.txt", 4096);
    virus.is_virus = true;
    let entries = vec![entry("a.txt", 1000), entry("b.txt", 0), virus, entry("c.txt", 512)];
    let index = VfsIndex::from_controlled_tree("/mnt/usb", &entries, &open_snapshot()).unwrap();
    let a = ExfatAllocator::build(&index, 1_000_001).unwrap();
    assert_eq!(a.total_sectors(), 1954);
    assert_eq!(a.classify_sector(0), SectorClass::Boot);
    match a.read_sector(0) {
        VirtualSector::Metadata(d) => assert_eq!(d, vec![0u8; 512]),
        other => panic!("expected metadata, got {other:?}"),
    }
    let a_id = index.lookup_path("/a.txt").unwrap();
    let c_id = index.lookup_path("/c.txt").unwrap();
    match a.read_sector(2048) {
        VirtualSector::FileData(e) => {
            assert_eq!(e, FileExtent { node_id: a_id, file_offset: 0, valid_bytes: 512 })
        }
        other => panic!("expected file data, got {other:?}"),
    }
    match a.read_sector(2049) {
        VirtualSector::FileData(e) => {
            assert_eq!(e, FileExtent { node_id: a_id, file_offset: 512, valid_bytes: 488 })
        }
        other => panic!("expected file data, got {other:?}"),
    }
    match a.read_sector(2050) {
        VirtualSector::FileData(e) => assert_eq!(e.node_id, c_id),
        other => panic!("expected file data, got {other:?}"),
    }
    assert_eq!(a.classify_sector(2050), SectorClass::FileData);
    assert_eq!(a.classify_sector(2051), SectorClass::Free);
    assert!(matches!(a.read_sector(2051), VirtualSector::Free));
    assert_eq!(a.classify_sector(1), SectorClass::Free);
    assert_eq!(
        a.estimated_memory_bytes(),
        512 + 3 * std::mem::size_of::<FileExtent>()
    );
    let _ = NodeId(0);
}

#[test]
fn executable_headers() {
    assert_eq!(header_kind(&[0x7F, b'E', b'L', b'F']), HeaderKind::Elf);
    assert_eq!(header_kind(&[b'M', b'Z', 0x90, 0]), HeaderKind::Mz);
    assert_eq!(header_kind(&[b'M', b'Z']), HeaderKind::NotExecutable);
    assert_eq!(header_kind(b"text"), HeaderKind::NotExecutable);
    assert_eq!(pe_offset(&[0x80, 0, 0, 0]), 0x80);
    assert_eq!(characteristics_offset(0x80), Some(0x96));
    assert_eq!(characteristics_offset(u64::MAX - 10), None);
    assert_eq!(pe_type(b"PE\0\0", &[0x02, 0x01]), Some(ExecFileType::Pe));
    assert_eq!(pe_type(b"PE\0\0", &[0x02, 0x21]), Some(ExecFileType::Dll));
    assert_eq!(pe_type(b"NE\0\0", &[0x02, 0x21]), None);
}

fn config() -> GadgetBootstrapConfig {
    GadgetBootstrapConfig {
        configfs_root: "/sys/kernel/config/usb_gadget".to_string(),
        udc_root: "/sys/class/udc".to_string(),
        gadget_name: "g1".to_string(),
        config_name: "c.1".to_string(),
        udc: None,
        keep_adb: false,
        storage_function: "mass_storage.usb0".to_string(),
        storage_lun: 0,
        keyboard_function: "hid.usb0".to_string(),
        mouse_function: "hid.usb1".to_string(),
    }
}

#[test]
fn bootstrap_checks_function_names() {
    assert!(validate_function_name("hid.usb0").is_ok());
    for bad in ["", "a/b", "x..y"] {
        match validate_function_name(bad) {
            Err(GadgetBootstrapError::InvalidFunctionName(n)) => assert_eq!(n, bad),
            other => panic!("expected an invalid name, got {other:?}"),
        }
    }
    assert!(GadgetBootstrap::check_config(&config()).is_ok());
    let mut dup = config();
    dup.mouse_function = "hid.usb0".to_string();
    match GadgetBootstrap::check_config(&dup) {
        Err(GadgetBootstrapError::DuplicateHidFunction(n)) => assert_eq!(n, "hid.usb0"),
        other => panic!("expected a duplicate, got {other:?}"),
    }
    let mut bad = config();
    bad.keyboard_function = "../x".to_string();
    bad.mouse_function = "../x".to_string();
    match GadgetBootstrap::check_config(&bad) {
        Err(GadgetBootstrapError::InvalidFunctionName(n)) => assert_eq!(n, "../x"),
        other => panic!("expected an invalid name, got {other:?}"),
    }
}

#[test]
fn bootstrap_paths_and_decisions() {
    let mut c = config();
    c.storage_lun = 3;
    let p = GadgetBootstrap::paths(&c);
    assert_eq!(p.gadget_dir, "/sys/kernel/config/usb_gadget/g1");
    assert_eq!(p.functions_dir, "/sys/kernel/config/usb_gadget/g1/functions");
    assert_eq!(p.config_dir, "/sys/kernel/config/usb_gadget/g1/configs/c.1");
    assert_eq!(p.config_strings_dir, "/sys/kernel/config/usb_gadget/g1/configs/c.1/strings/0x409");
    assert_eq!(p.lun_dir, "/sys/kernel/config/usb_gadget/g1/functions/mass_storage.usb0/lun.3");
    assert_eq!(p.mouse_link, "/sys/kernel/config/usb_gadget/g1/configs/c.1/hid.usb1");
    assert_eq!(p.keyboard_dir, "/sys/kernel/config/usb_gadget/g1/functions/hid.usb0");
    assert_eq!(p.udc_file, "/sys/kernel/config/usb_gadget/g1/UDC");
    assert!(!GadgetBootstrap::links_need_change(true, true, true, false, false));
    assert!(GadgetBootstrap::links_need_change(true, false, true, true, false));
    assert!(GadgetBootstrap::links_need_change(true, true, true, false, true));
    assert!(!GadgetBootstrap::links_need_change(true, true, true, true, true));
    assert!(GadgetBootstrap::must_unbind(true, "fe980000.usb\n"));
    assert!(!GadgetBootstrap::must_unbind(true, "\n"));
    assert!(!GadgetBootstrap::must_unbind(false, "fe980000.usb"));
    assert!(is_adb_link_name("ffs.adb"));
    assert!(!is_adb_link_name("hid.usb0"));
    let names = vec!["musb-hdrc.0".to_string(), "dwc2".to_string()];
    assert_eq!(GadgetBootstrap::udc_to_bind(&c, &names).unwrap(), "dwc2");
    match GadgetBootstrap::udc_to_bind(&c, &[]) {
        Err(GadgetBootstrapError::UdcNotFound(root)) => assert_eq!(root, "/sys/class/udc"),
        other => panic!("expected no UDC, got {other:?}"),
    }
    c.udc = Some("chosen".to_string());
    assert_eq!(GadgetBootstrap::udc_to_bind(&c, &[]).unwrap(), "chosen");
    let g = GadgetBootstrap::runtime_for(&c, &p);
    assert_eq!(g.gadget_name(), "g1");
    assert_eq!(g.function_name(), "mass_storage.usb0");
    assert_eq!(g.lun_dir(), p.lun_dir);
    assert_eq!(g.udc_root(), "/sys/class/udc");
}

fn request(ty: u32, handle: u64, from: u64, len: u32) -> [u8; NBD_REQUEST_SIZE] {
    let mut b = [0u8; NBD_REQUEST_SIZE];
    b[0..4].copy_from_slice(&0x2560_9513u32.to_be_bytes());
    b[4..8].copy_from_slice(&ty.to_be_bytes());
    b[8..16].copy_from_slice(&handle.to_be_bytes());
    b[16..24].copy_from_slice(&from.to_be_bytes());
    b[24..28].copy_from_slice(&len.to_be_bytes());
    b
}

#[test]
fn request_loop_actions() {
    assert!(matches!(next_action(&request(0, 9, 512, 4096)), LoopAction::Read { handle: 9, from: 512, len: 4096 }));
    assert!(matches!(next_action(&request(1, 9, 0, 512)), LoopAction::Write { handle: 9, from: 0, len: 512 }));
    assert!(matches!(next_action(&request(3, 4, 0, 0)), LoopAction::Flush { handle: 4 }));
    assert!(matches!(next_action(&request(2, 4, 0, 0)), LoopAction::Disconnect));
    match next_action(&request(7, 5, 0, 0)) {
        LoopAction::Reply(b) => assert_eq!(b, build_reply(5, 5)),
        other => panic!("expected an error reply, got {other:?}"),
    }
    let mut bad = request(0, 1, 0, 0);
    bad[0] = 0;
    assert!(matches!(next_action(&bad), LoopAction::Stop));
}

#[test]
fn write_replies() {
    assert_eq!(write_reply(3, &Ok(BlockWriteOutcome::Committed)), build_reply(3, 0));
    assert_eq!(
        write_reply(3, &Ok(BlockWriteOutcome::PolicyRejectedAndRestored { reason: "x".to_string() })),
        build_reply(3, 0)
    );
    assert_eq!(write_reply(3, &Err(io_error(ErrorKind::Other, "disk"))), build_reply(3, 5));
}

#[test]
fn volume_reads_by_whole_sectors() {
    let volume = VirtualVolume::build(&[entry("a.txt", 700)], &open_snapshot()).unwrap();
    let s = volume.find_file_data_sectors("a.txt");
    let pieces = volume_read_pieces(&volume, s[0] * 512, 1100).unwrap();
    assert_eq!(pieces.len(), 2);
    match &pieces[1] {
        ReadPiece::File { real_path, offset, read_len, take } => {
            assert_eq!(real_path, "/mnt/usb/a.txt");
            assert_eq!((*offset, *read_len, *take), (512, 188, 512));
        }
        other => panic!("expected a file piece, got {other:?}"),
    }
    match &volume_read_pieces(&volume, 0, 512).unwrap()[0] {
        ReadPiece::Bytes(b) => assert_eq!(&b[510..], &[0x55, 0xAA]),
        other => panic!("expected the MBR, got {other:?}"),
    }
    let past = volume.total_sectors() * 512;
    assert!(matches!(volume_read_pieces(&volume, past, 512).unwrap()[0], ReadPiece::Zeros(512)));
    assert!(volume_read_pieces(&volume, 0, 100).unwrap().is_empty());
}

#[test]
fn blocked_sectors_fail_reads_and_writes() {
    let mut elf = entry("tool", 1024);
    elf.exec_type = Some(ExecFileType::Elf);
    let mut snap = open_snapshot();
    snap.exec_control_enabled = true;
    let volume = VirtualVolume::build(&[elf, entry("ok.txt", 600)], &snap).unwrap();
    let blocked = volume.find_file_data_sectors("tool");
    assert!(volume_read_pieces(&volume, blocked[0] * 512, 512).is_none());
    let ok = volume.find_file_data_sectors("ok.txt");
    let mut m = WriteBackManager::new("/mnt/usb", false);
    let acts = volume_write_actions(&mut m, &volume, ok[0] * 512, &vec![1u8; 1024]).unwrap();
    assert_eq!(
        acts,
        vec![
            WriteBackAction::WriteFile { real_path: "/mnt/usb/ok.txt".to_string(), offset: 0, len: 512 },
            WriteBackAction::WriteFile { real_path: "/mnt/usb/ok.txt".to_string(), offset: 512, len: 88 },
        ]
    );
    let e = volume_write_actions(&mut m, &volume, blocked[0] * 512, &[0u8; 512]).unwrap_err();
    assert_eq!(e.kind, ErrorKind::PermissionDenied);
    let mut ro = WriteBackManager::new("/mnt/usb", true);
    let skips = volume_write_actions(&mut ro, &volume, blocked[0] * 512, &[0u8; 1030]).unwrap();
    assert_eq!(skips, vec![WriteBackAction::Skip, WriteBackAction::Skip]);
}
