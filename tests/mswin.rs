use balena_migrate::arch::OSArch;
use balena_migrate::error::{MigError, MigErrorKind};
use balena_migrate::files::FileInfo;
use balena_migrate::mswin::{select_drives, DriveInfo, MSWinApi, MigrateInfo, WinOsInfo, WinPartition, WinPathInfo};

fn partition(id: &str, index: u64, letter: Option<&str>, boot: bool, efi: bool) -> WinPartition {
    WinPartition {
        drive_id: id.to_string(),
        index,
        letter: letter.map(String::from),
        is_boot_device: boot,
        is_efi_fs: efi,
    }
}

fn os() -> WinOsInfo {
    WinOsInfo { os_name: "Windows 10".to_string(), os_arch: OSArch::AMD64, os_release: "10.0".to_string(), mem_tot: 8 << 30 }
}

fn drives() -> DriveInfo {
    let p = |s: &str| WinPathInfo { path: s.to_string(), drive_id: "disk0".to_string(), index: 1 };
    DriveInfo { boot_path: p("C:\\"), efi_path: Some(p("S:\\")), work_path: p("C:\\balena") }
}

fn kernel() -> Option<FileInfo> {
    let mut h = vec![0u8; 512];
    h[0] = 0x4D;
    h[1] = 0x5A;
    h[0x3C] = 0x80;
    h[0x80..0x84].copy_from_slice(b"PE\0\0");
    Some(FileInfo { path: "balena.efi".to_string(), size: 1 << 20, header: h })
}

fn image() -> Option<FileInfo> {
    Some(FileInfo { path: "balena.img.gz".to_string(), size: 500 << 20, header: vec![0x1F, 0x8B] })
}

fn config() -> Option<FileInfo> {
    Some(FileInfo { path: "config.json".to_string(), size: 100, header: b"{}".to_vec() })
}

fn initrd() -> Option<FileInfo> {
    Some(FileInfo { path: "initrd".to_string(), size: 100, header: vec![0x1F, 0x8B] })
}

fn kind(r: Result<MigrateInfo, MigError>) -> MigErrorKind {
    r.err().unwrap().kind
}

#[test]
fn windows_host_checks() {
    let m = MigrateInfo::new(Ok(true), Ok(false), os(), drives(), image(), config(), kernel(), initrd()).ok().unwrap();
    assert!(m.efi_boot);
    assert_eq!(m.os_arch, OSArch::AMD64);
    assert_eq!(kind(MigrateInfo::new(Ok(false), Ok(false), os(), drives(), image(), config(), kernel(), initrd())), MigErrorKind::Displayed);
    assert_eq!(kind(MigrateInfo::new(Ok(true), Ok(true), os(), drives(), image(), config(), kernel(), initrd())), MigErrorKind::SecureBootEnabled);
    let mut small = os();
    small.mem_tot = 600 << 20;
    assert_eq!(kind(MigrateInfo::new(Ok(true), Ok(false), small, drives(), image(), config(), kernel(), initrd())), MigErrorKind::InsufficientMemory);
    assert_eq!(kind(MigrateInfo::new(Ok(true), Ok(false), os(), drives(), image(), None, kernel(), initrd())), MigErrorKind::MissingFile);
    assert_eq!(kind(MigrateInfo::new(Ok(true), Ok(false), os(), drives(), image(), config(), initrd(), initrd())), MigErrorKind::InvalidFileType);
}

#[test]
fn windows_drive_selection() {
    let ps = vec![
        partition("disk0", 0, None, true, true),
        partition("disk0", 1, Some("C:"), false, false),
        partition("disk1", 0, Some("D:"), false, false),
    ];
    let d = select_drives(true, 1, 1, &Some("C:\\".to_string()), &ps, "D:\\balena").ok().unwrap();
    assert_eq!((d.boot_path.drive_id.as_str(), d.boot_path.index), ("disk0", 1));
    assert_eq!((d.work_path.drive_id.as_str(), d.work_path.index), ("disk1", 0));
    assert_eq!(d.work_path.path, "D:\\balena");
    assert_eq!(d.boot_path.path, "C:\\");
    assert_eq!(d.efi_path.as_ref().map(|e| e.path.clone()), Some(String::new()));
    let e = d.efi_path.unwrap();
    assert_eq!((e.drive_id.as_str(), e.index), ("disk0", 0));
    let no_efi = vec![partition("disk0", 1, Some("C:"), false, false)];
    assert_eq!(select_drives(true, 1, 1, &Some("C:\\".to_string()), &no_efi, "C:\\w").err().unwrap().kind, MigErrorKind::MissingFile);
    assert!(select_drives(false, 1, 1, &Some("C:\\".to_string()), &no_efi, "C:\\w").ok().unwrap().efi_path.is_none());
    assert_eq!(select_drives(true, 2, 1, &Some("C:\\".to_string()), &ps, "C:\\w").err().unwrap().kind, MigErrorKind::InvalidParam);
    assert_eq!(select_drives(true, 1, 1, &Some("E:\\".to_string()), &ps, "C:\\w").err().unwrap().kind, MigErrorKind::MissingFile);
}

#[test]
fn windows_api_reports_os() {
    let api = MSWinApi::new(os());
    assert_eq!(api.get_os_arch(), OSArch::AMD64);
    assert_eq!(api.get_os_name(), "Windows 10");
}

#[test]
fn windows_host_needs_efi_partition() {
    let mut d = drives();
    d.efi_path = None;
    assert_eq!(kind(MigrateInfo::new(Ok(true), Ok(false), os(), d, image(), config(), kernel(), initrd())), MigErrorKind::MissingFile);
    let m = MigrateInfo::new(Ok(true), Ok(false), os(), drives(), image(), config(), kernel(), initrd()).ok().unwrap();
    assert_eq!(m.os_name, "Windows 10");
    assert_eq!(m.os_release, "10.0");
    assert_eq!(m.kernel_file.path, "balena.efi");
    assert_eq!(m.initrd_file.path, "initrd");
    assert_eq!(m.image_file.path, "balena.img.gz");
    assert_eq!(m.config_file.path, "config.json");
}
