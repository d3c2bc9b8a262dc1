use file_access::autorun::{extract_executable_path, parse_autorun_targets};
use file_access::error::ErrorKind;
use file_access::file_tree::{
    autorun_key, classify_entry, extract_extension, is_autorun_inf_name, is_shell_script,
    normalize_path, sort_entries, FoundEntry, VIRUS_PREFIX,
};
use file_access::policy::evaluate_access;
use file_access::raw_mount::{
    dev_name_from_path, ensure_mount_available_from, mount_entries_from, mount_path_for,
    mount_target_exists_from, planned_usb_raw_unmounts, MountPreflightError,
};
use file_access::strings::{is_same_path_or_child, join_virtual_path, remap_path_prefix};
use file_access::types::{AccessDecision, ControlledEntry, ExecFileType, PolicySnapshot};
use file_access::vfs::committer::RealFsCommitter;
use file_access::vfs::journal::{sync_file_paths, FileMutation, FlushAction, WriteJournal};
use file_access::vfs::operation_guard::{FsOperation, OperationGuard};
use file_access::vfs::path::{extension_for, split_parent_name, validate_absolute_path, validate_name};

fn file(name: &str) -> ControlledEntry {
    ControlledEntry {
        real_path: format!("/mnt/usb/{name}"),
        virtual_name: name.to_string(),
        file_size: 10,
        is_dir: false,
        is_virus: false,
        exec_type: None,
        extension: extract_extension(name),
        is_autorun_target: false,
        is_autorun_inf: false,
        is_root_shell_script: false,
        children: vec![],
    }
}

fn snapshot(exec: bool, blacklist: bool, autorun: bool, exts: &[&str], permission: i32) -> PolicySnapshot {
    PolicySnapshot {
        exec_control_enabled: exec,
        file_type_blacklist_enabled: blacklist,
        auto_read_control_enabled: autorun,
        blacklist_extensions: exts.iter().map(|e| e.to_string()).collect(),
        permission,
    }
}

fn denial(d: AccessDecision) -> Option<String> {
    match d {
        AccessDecision::Allow => None,
        AccessDecision::Deny(r) => Some(r),
    }
}

#[test]
fn directories_are_always_allowed() {
    let mut d = file("dir");
    d.is_dir = true;
    d.is_virus = true;
    assert_eq!(denial(evaluate_access(&d, &snapshot(true, true, true, &["dir"], 0))), None);
}

#[test]
fn policy_levels_in_order() {
    let all = snapshot(true, true, true, &["exe", "txt"], 1);
    let mut v = file("x.exe");
    v.is_virus = true;
    v.exec_type = Some(ExecFileType::Pe);
    assert_eq!(denial(evaluate_access(&v, &all)).unwrap(), "L1:病毒文件禁止访问");
    v.is_virus = false;
    assert_eq!(denial(evaluate_access(&v, &all)).unwrap(), "L2:可执行文件控制(Pe)");
    v.exec_type = None;
    assert_eq!(denial(evaluate_access(&v, &all)).unwrap(), "L3:文件类型黑名单(exe)");
    let mut a = file("autorun.inf");
    a.is_autorun_inf = true;
    assert_eq!(denial(evaluate_access(&a, &all)).unwrap(), "L4:自运行控制(autorun.inf)");
    let mut t = file("setup.com");
    t.is_autorun_target = true;
    assert_eq!(denial(evaluate_access(&t, &all)).unwrap(), "L4:自运行控制(autorun引用文件)");
    let mut s = file("run.sh");
    s.is_root_shell_script = true;
    assert_eq!(denial(evaluate_access(&s, &all)).unwrap(), "L4:自运行控制(根目录shell脚本)");
    assert_eq!(denial(evaluate_access(&file("photo.jpg"), &all)), None);
}

#[test]
fn disabled_levels_allow() {
    let none = snapshot(false, false, false, &["exe"], 1);
    let mut v = file("x.exe");
    v.exec_type = Some(ExecFileType::Elf);
    v.is_autorun_target = true;
    assert_eq!(denial(evaluate_access(&v, &none)), None);
    let mut virus = file("y.txt");
    virus.is_virus = true;
    assert!(denial(evaluate_access(&virus, &none)).is_some());
}

#[test]
fn autorun_targets_parsed() {
    let text = "[AutoRun]\r\nOPEN = setup.exe /s\r\nicon=a.ico\r\n; open=commented.exe\r\nshell\\install\\command=\"bin\\inst.exe\" -q\r\nshellexecute=setup.exe\r\nShellExecute=other.exe\r\nopen=\r\n";
    assert_eq!(parse_autorun_targets(text), vec!["setup.exe", "bin\\inst.exe", "other.exe"]);
    assert!(parse_autorun_targets("").is_empty());
    assert!(parse_autorun_targets("[autorun]\nlabel=USB\n").is_empty());
}

#[test]
fn executable_path_of_values() {
    let q: Vec<char> = "  \"C:\\a b.exe\" arg".chars().collect();
    assert_eq!(extract_executable_path(&q).iter().collect::<String>(), "C:\\a b.exe");
    let plain: Vec<char> = "run.exe -x".chars().collect();
    assert_eq!(extract_executable_path(&plain).iter().collect::<String>(), "run.exe");
    let open: Vec<char> = "\"unterminated.exe".chars().collect();
    assert_eq!(extract_executable_path(&open).iter().collect::<String>(), "unterminated.exe");
}

#[test]
fn file_tree_names() {
    assert_eq!(normalize_path("\\dir\\sub/file.txt"), "dir/sub/file.txt");
    assert_eq!(normalize_path("//a"), "a");
    assert_eq!(extract_extension("Photo.JPG"), "jpg");
    assert_eq!(extract_extension("archive.tar.gz"), "gz");
    assert_eq!(extract_extension("README"), "");
    assert!(is_shell_script("Install.SH"));
    assert!(is_shell_script("x.bash"));
    assert!(!is_shell_script("x.shx"));
    assert!(is_autorun_inf_name("AutoRun.INF"));
    assert!(!is_autorun_inf_name("autorun.inf.bak"));
    assert_eq!(autorun_key("Bin\\Setup.EXE"), "bin/setup.exe");
}

fn found(name: &str, relative: &str, is_dir: bool) -> FoundEntry {
    FoundEntry {
        file_name: name.to_string(),
        real_path: format!("/mnt/usb/{relative}"),
        relative: relative.to_string(),
        is_dir,
        len: 1234,
        exec_type: Some(ExecFileType::Pe),
    }
}

#[test]
fn classify_virus_and_autorun_files() {
    let infected = vec!["bad/evil.exe".to_string()];
    let targets = vec!["setup.exe".to_string()];
    let v = classify_entry(found("evil.exe", "bad/evil.exe", false), false, &infected, &targets, vec![]);
    assert!(v.is_virus);
    assert_eq!(v.file_size, 0);
    assert_eq!(v.virtual_name, format!("{VIRUS_PREFIX}evil.exe"));
    assert_eq!(v.exec_type, None);
    let s = classify_entry(found("Setup.exe", "Setup.exe", false), true, &infected, &targets, vec![]);
    assert!(!s.is_virus);
    assert!(s.is_autorun_target);
    assert_eq!(s.file_size, 1234);
    assert_eq!(s.extension, "exe");
    assert_eq!(s.exec_type, Some(ExecFileType::Pe));
    let a = classify_entry(found("autorun.inf", "autorun.inf", false), true, &infected, &targets, vec![]);
    assert!(a.is_autorun_inf);
    let nested = classify_entry(found("autorun.inf", "d/autorun.inf", false), false, &infected, &targets, vec![]);
    assert!(!nested.is_autorun_inf);
    let sh = classify_entry(found("go.sh", "go.sh", false), true, &infected, &targets, vec![]);
    assert!(sh.is_root_shell_script);
    let d = classify_entry(found("dir.x", "dir.x", true), true, &infected, &targets, vec![file("in")]);
    assert_eq!(d.extension, "");
    assert_eq!(d.children.len(), 1);
}

#[test]
fn entries_sorted_by_name() {
    let sorted = sort_entries(vec![file("b"), file("a"), file("c"), file("a")]);
    let names: Vec<&str> = sorted.iter().map(|e| e.virtual_name.as_str()).collect();
    assert_eq!(names, vec!["a", "a", "b", "c"]);
}

const MOUNTS: &str = "/dev/root / ext4 rw 0 0\n/dev/sda1 /mnt/usb_raw/sda1 vfat rw 0 0\nproc /proc proc rw 0 0\n/dev/sdb1 /mnt/usb_raw/sdb1 exfat rw 0 0\nbroken line\n/dev/sdc1 /mnt/usb_raw_other ext4 rw 0 0\n";

#[test]
fn mount_table_parsing() {
    let entries = mount_entries_from(MOUNTS);
    assert_eq!(entries.len(), 5);
    assert_eq!(entries[1].source, "/dev/sda1");
    assert_eq!(entries[1].target, "/mnt/usb_raw/sda1");
    assert_eq!(entries[1].fs_type, "vfat");
    assert_eq!(
        planned_usb_raw_unmounts(&entries, "/mnt/usb_raw/"),
        vec!["/mnt/usb_raw/sda1", "/mnt/usb_raw/sdb1"]
    );
    assert!(mount_target_exists_from(&entries, "/proc"));
    assert!(!mount_target_exists_from(&entries, "/mnt/usb_raw/sdz1"));
}

#[test]
fn mount_preflight() {
    let entries = mount_entries_from(MOUNTS);
    assert_eq!(ensure_mount_available_from(&entries, "/dev/sdz1", "/mnt/usb_raw/sdz1"), Ok(()));
    assert_eq!(
        ensure_mount_available_from(&entries, "/dev/sda1", "/mnt/x"),
        Err(MountPreflightError::SourceAlreadyMounted {
            source: "/dev/sda1".to_string(),
            target: "/mnt/usb_raw/sda1".to_string()
        })
    );
    assert_eq!(
        ensure_mount_available_from(&entries, "/dev/sdz1", "/mnt/usb_raw/sdb1"),
        Err(MountPreflightError::MountPointOccupied {
            source: "/dev/sdb1".to_string(),
            target: "/mnt/usb_raw/sdb1".to_string()
        })
    );
}

#[test]
fn mount_paths() {
    assert_eq!(mount_path_for("sda1"), "/mnt/usb-control/raw/sda1");
    assert_eq!(
        mount_path_for("storage_0123456789abcdef"),
        "/mnt/usb-control/raw/storage_0123456789abcdef"
    );
    assert_eq!(mount_path_for("/abs/point"), "/abs/point");
    assert_eq!(dev_name_from_path("/dev/sda1"), "sda1");
    assert_eq!(dev_name_from_path("sdb"), "sdb");
}

#[test]
fn virtual_path_rules() {
    assert!(validate_absolute_path("/a/b").is_ok());
    assert_eq!(validate_absolute_path("a/b").unwrap_err().kind, ErrorKind::InvalidInput);
    assert_eq!(validate_absolute_path("/a/../b").unwrap_err().kind, ErrorKind::PermissionDenied);
    assert_eq!(validate_absolute_path("/a/..").unwrap_err().kind, ErrorKind::PermissionDenied);
    assert!(validate_name(&['a']).is_ok());
    assert_eq!(validate_name(&['.', '.']).unwrap_err().kind, ErrorKind::InvalidInput);
    assert_eq!(validate_name(&[]).unwrap_err().kind, ErrorKind::InvalidInput);
    assert_eq!(validate_name(&['a', '/']).unwrap_err().kind, ErrorKind::InvalidInput);
    assert_eq!(split_parent_name("/a/b/").unwrap(), ("/a".to_string(), "b".to_string()));
    assert_eq!(split_parent_name("/top").unwrap(), ("/".to_string(), "top".to_string()));
    assert_eq!(split_parent_name("/").unwrap_err().kind, ErrorKind::InvalidInput);
    assert_eq!(split_parent_name("nodir").unwrap_err().kind, ErrorKind::InvalidInput);
    assert_eq!(extension_for("A.TXT"), "txt");
    assert_eq!(extension_for("noext"), "");
}

#[test]
fn path_helpers() {
    assert!(is_same_path_or_child("/a/b", "/a"));
    assert!(is_same_path_or_child("/a", "/a"));
    assert!(!is_same_path_or_child("/ab", "/a"));
    assert_eq!(remap_path_prefix("/a/b/c", "/a/b", "/x"), "/x/c");
    assert_eq!(remap_path_prefix("/q", "/a", "/x"), "/q");
    assert_eq!(join_virtual_path("/", "f"), "/f");
    assert_eq!(join_virtual_path("/d", "f"), "/d/f");
}

#[test]
fn committer_resolves_below_the_root() {
    let c = RealFsCommitter::new("/mnt/usb".to_string());
    assert_eq!(c.mount_root(), "/mnt/usb");
    assert_eq!(c.resolve_virtual_path("/a/./b.txt").unwrap(), "/mnt/usb/a/b.txt");
    assert_eq!(c.resolve_virtual_path("/").unwrap(), "/mnt/usb");
    assert_eq!(c.resolve_virtual_path("/a/../../etc").unwrap_err().kind, ErrorKind::PermissionDenied);
    assert_eq!(c.resolve_virtual_path("rel").unwrap_err().kind, ErrorKind::PermissionDenied);
}

#[test]
fn guard_admission() {
    let ro = OperationGuard::new(snapshot(false, false, false, &[], 0));
    let e = ro.check(&FsOperation::CreateDir { virtual_path: "/d".to_string() }).unwrap_err();
    assert_eq!(e.kind, ErrorKind::PermissionDenied);
    let g = OperationGuard::new(snapshot(true, true, false, &["exe"], 1));
    assert!(g.check(&FsOperation::CreateFile { virtual_path: "/a.txt".to_string() }).is_ok());
    assert!(g.check(&FsOperation::CreateFile { virtual_path: "/A.EXE".to_string() }).is_err());
    assert!(g
        .check(&FsOperation::Rename { from: "/a.exe".to_string(), to: "/a.txt".to_string() })
        .is_ok());
    assert!(g
        .check(&FsOperation::WriteExecutable { virtual_path: "/t".to_string(), exec_type: ExecFileType::Elf })
        .is_err());
    let open = OperationGuard::new(snapshot(false, false, false, &["exe"], 1));
    assert!(open.check(&FsOperation::Delete { virtual_path: "/a.exe".to_string() }).is_ok());
}

#[test]
fn journal_sync_paths() {
    let mut j = WriteJournal::new();
    assert!(!j.is_dirty());
    j.record(FileMutation::CreateFile { virtual_path: "/d/a".to_string() });
    j.record(FileMutation::Write { virtual_path: "/d/a".to_string(), offset: 0, data: vec![1] });
    j.record(FileMutation::Truncate { virtual_path: "/e".to_string(), len: 0 });
    j.record(FileMutation::Rename { from: "/d".to_string(), to: "/z".to_string() });
    assert!(j.is_dirty());
    assert_eq!(j.mutations().len(), 4);
    let paths = j.sync_paths();
    assert_eq!(paths, vec!["/e", "/z", "/z/a"]);
    j.discard();
    assert!(!j.is_dirty());
    let ms = vec![
        FileMutation::CreateFile { virtual_path: "/x/1".to_string() },
        FileMutation::CreateFile { virtual_path: "/y".to_string() },
        FileMutation::DeleteDir { virtual_path: "/x".to_string() },
        FileMutation::DeleteFile { virtual_path: "/y".to_string() },
        FileMutation::CreateDir { virtual_path: "/w".to_string() },
    ];
    assert!(sync_file_paths(&ms).is_empty());
}

#[test]
fn equal_names_keep_their_order() {
    let mut first = file("a");
    first.real_path = "/mnt/usb/first".to_string();
    let mut second = file("a");
    second.real_path = "/mnt/usb/second".to_string();
    let sorted = sort_entries(vec![file("b"), first, file("c"), second]);
    let paths: Vec<&str> = sorted.iter().map(|e| e.real_path.as_str()).collect();
    assert_eq!(paths, vec!["/mnt/usb/first", "/mnt/usb/second", "/mnt/usb/b", "/mnt/usb/c"]);
}

#[test]
fn flush_steps_apply_sync_then_clear() {
    let mut j = WriteJournal::new();
    j.record(FileMutation::CreateFile { virtual_path: "/a".to_string() });
    j.record(FileMutation::Write { virtual_path: "/a".to_string(), offset: 0, data: vec![7] });
    let paths = j.sync_paths();
    assert_eq!(paths, vec!["/a".to_string()]);
    assert_eq!(j.flush_step(0, paths.len(), true), FlushAction::Apply(0));
    assert_eq!(j.flush_step(1, paths.len(), true), FlushAction::Apply(1));
    assert_eq!(j.flush_step(2, paths.len(), true), FlushAction::Sync(0));
    assert_eq!(j.flush_step(3, paths.len(), true), FlushAction::SyncMountRoot);
    assert!(j.is_dirty());
    assert_eq!(j.flush_step(4, paths.len(), true), FlushAction::Done);
    assert!(!j.is_dirty());
}

#[test]
fn failed_flush_step_keeps_the_journal() {
    let mut j = WriteJournal::new();
    j.record(FileMutation::DeleteFile { virtual_path: "/gone".to_string() });
    assert_eq!(j.flush_step(0, 0, true), FlushAction::Apply(0));
    assert_eq!(j.flush_step(1, 0, false), FlushAction::Stop);
    assert!(j.is_dirty());
    assert_eq!(j.mutations().len(), 1);
}
