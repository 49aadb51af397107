use balena_migrate::arch::OSArch;
use balena_migrate::boot::BootType;
use balena_migrate::device::{classify_arm, DeviceType, IntelNuc, SecureBoot};
use balena_migrate::disk::{check_same_drive, drive_layout_from_lsblk, resolve_mount, MountEntry, PartitionInfo};
use balena_migrate::error::{MigError, MigErrorKind};
use balena_migrate::files::FileInfo;
use balena_migrate::linux::{Config, HostFacts, LinuxMigrator, MigMode};

fn part(path: &str, device: &str, drive: &str, free: u64) -> PartitionInfo {
    PartitionInfo {
        path: path.to_string(),
        device: device.to_string(),
        drive: drive.to_string(),
        fs_type: "ext4".to_string(),
        fs_size: 1 << 30,
        fs_free: free,
    }
}

fn file(path: &str, size: u64, header: Vec<u8>) -> Option<FileInfo> {
    Some(FileInfo { path: path.to_string(), size, header })
}

fn amd64_kernel() -> Vec<u8> {
    let mut h = vec![0u8; 512];
    h[0] = 0x4D;
    h[1] = 0x5A;
    h[0x3C] = 0x80;
    h[0x80..0x84].copy_from_slice(b"PE\0\0");
    h
}

fn mbr_image() -> Vec<u8> {
    let mut h = vec![0u8; 512];
    h[0x1FE] = 0x55;
    h[0x1FF] = 0xAA;
    h
}

fn config() -> Config {
    Config { mode: MigMode::Immediate, force_slug: None, balena_section: true }
}

fn nuc_facts() -> HostFacts {
    HostFacts {
        found_cmds: ["df", "lsblk", "file", "uname", "mount", "reboot", "chmod", "mokutil"]
            .iter()
            .map(|s| s.to_string())
            .collect(),
        is_admin: true,
        os_name: "Ubuntu 18.04.2 LTS".to_string(),
        os_arch: OSArch::AMD64,
        efi_boot: true,
        secure_boot: SecureBoot::Off,
        device_model: String::new(),
        grub_ready: Ok(true),
        boot_dir_exists: true,
        work_files: vec![],
        boot_path: Some(part("/boot", "/dev/sda1", "/dev/sda", 100 << 20)),
        efi_path: Some(part("/boot/efi", "/dev/sda2", "/dev/sda", 100 << 20)),
        root_path: Some(part("/", "/dev/sda1", "/dev/sda", 10 << 30)),
        work_path: Some(part("/", "/dev/sda1", "/dev/sda", 10 << 30)),
        lsblk_success: true,
        lsblk_output: "SIZE UUID\n500107862016 a1b2c3d4-e5f6\n".to_string(),
        kernel: file("balena.zImage", 8 << 20, amd64_kernel()),
        initrd: file("balena.initramfs.cpio.gz", 10 << 20, vec![0x1F, 0x8B, 8, 0]),
        image: file("balena.img.gz", 400 << 20, mbr_image()),
        balena_config: file("config.json", 1000, b"{\"deviceType\":\"intel-nuc\"}".to_vec()),
        mem_total: 4 << 30,
    }
}

fn pi_facts() -> HostFacts {
    let mut f = nuc_facts();
    f.os_name = "Raspbian GNU/Linux 9 (stretch)".to_string();
    f.os_arch = OSArch::ARMHF;
    f.efi_boot = false;
    f.efi_path = None;
    f.device_model = "Raspberry Pi 3 Model B Plus Rev 1.3".to_string();
    f.work_files = vec!["bcm2710-rpi-3-b.dtb".to_string(), "bcm2710-rpi-3-b-plus.dtb".to_string()];
    let mut k = vec![0u8; 64];
    k[0x24..0x28].copy_from_slice(&[0x18, 0x28, 0x6F, 0x01]);
    f.kernel = file("balena.zImage", 5 << 20, k);
    f.boot_path = Some(part("/boot", "/dev/mmcblk0p1", "/dev/mmcblk0", 30 << 20));
    f.root_path = Some(part("/", "/dev/mmcblk0p2", "/dev/mmcblk0", 10 << 30));
    f
}

fn err_kind(r: Result<LinuxMigrator, MigError>) -> MigErrorKind {
    match r {
        Err(e) => e.kind,
        Ok(_) => panic!("the checks passed"),
    }
}

#[test]
fn nuc_host_passes_checks() {
    let m = LinuxMigrator::try_init(config(), nuc_facts()).ok().unwrap();
    assert_eq!(m.device.device_type, DeviceType::IntelNuc);
    assert_eq!(m.device.boot_type, BootType::GrubEfi);
    assert_eq!(m.mig_info.device_slug, "intel-nuc");
    assert_eq!(m.mig_info.drive.size, 500107862016);
    assert_eq!(m.mig_info.drive.uuid, "a1b2c3d4-e5f6");
    assert_eq!(m.mig_info.drive.drive, "/dev/sda");
}

#[test]
fn pi3_host_passes_checks() {
    let m = LinuxMigrator::try_init(config(), pi_facts()).ok().unwrap();
    assert_eq!(m.device.device_type, DeviceType::RaspberryPi3);
    assert_eq!(m.device.boot_type, BootType::Raspi);
    assert_eq!(m.mig_info.device_slug, "raspberrypi3");
}

#[test]
fn forced_slug_replaces_detected_one() {
    let mut c = config();
    c.force_slug = Some("intel-nuc-custom".to_string());
    let m = LinuxMigrator::try_init(c, nuc_facts()).ok().unwrap();
    assert_eq!(m.mig_info.device_slug, "intel-nuc-custom");
}

#[test]
fn nuc_with_secure_boot_is_refused() {
    let mut f = nuc_facts();
    f.secure_boot = SecureBoot::On;
    assert_eq!(err_kind(LinuxMigrator::try_init(config(), f)), MigErrorKind::SecureBootEnabled);
    let mut f = nuc_facts();
    f.secure_boot = SecureBoot::Unknown;
    assert_eq!(err_kind(LinuxMigrator::try_init(config(), f)), MigErrorKind::SecureBootEnabled);
    let mut f = nuc_facts();
    f.efi_boot = false;
    f.secure_boot = SecureBoot::Unknown;
    assert!(LinuxMigrator::try_init(config(), f).is_ok());
}

#[test]
fn split_drive_layout_is_refused() {
    let mut f = nuc_facts();
    f.efi_boot = false;
    f.root_path = Some(part("/", "/dev/sda1", "/dev/sda", 10 << 30));
    f.boot_path = Some(part("/boot", "/dev/sdb1", "/dev/sdb", 100 << 20));
    assert_eq!(err_kind(LinuxMigrator::try_init(config(), f)), MigErrorKind::SplitDriveLayout);
    let mut f = nuc_facts();
    f.efi_path = Some(part("/boot/efi", "/dev/sdc1", "/dev/sdc", 100 << 20));
    assert_eq!(err_kind(LinuxMigrator::try_init(config(), f)), MigErrorKind::SplitDriveLayout);
}

#[test]
fn check_errors_in_order() {
    let mut f = nuc_facts();
    f.found_cmds.retain(|c| c != "lsblk");
    f.is_admin = false;
    assert_eq!(err_kind(LinuxMigrator::try_init(config(), f)), MigErrorKind::MissingCommand);
    let mut f = nuc_facts();
    f.is_admin = false;
    assert_eq!(err_kind(LinuxMigrator::try_init(config(), f)), MigErrorKind::InsufficientPrivilege);
    let mut f = nuc_facts();
    f.os_name = "Windows 10".to_string();
    assert_eq!(err_kind(LinuxMigrator::try_init(config(), f)), MigErrorKind::UnsupportedOs);
    let mut f = nuc_facts();
    f.os_name = "Debian GNU/Linux 9 (stretch)".to_string();
    assert_eq!(err_kind(LinuxMigrator::try_init(config(), f)), MigErrorKind::UnsupportedOs);
    let mut f = nuc_facts();
    f.os_arch = OSArch::MIPS;
    assert_eq!(err_kind(LinuxMigrator::try_init(config(), f)), MigErrorKind::UnsupportedArchitecture);
    let mut f = pi_facts();
    f.device_model = "Some Board".to_string();
    assert_eq!(err_kind(LinuxMigrator::try_init(config(), f)), MigErrorKind::UnsupportedDevice);
    let mut f = nuc_facts();
    f.grub_ready = Ok(false);
    assert_eq!(err_kind(LinuxMigrator::try_init(config(), f)), MigErrorKind::InvalidState);
    let mut f = nuc_facts();
    f.lsblk_output = "SIZE UUID\n1000000 abc\n".to_string();
    assert_eq!(err_kind(LinuxMigrator::try_init(config(), f)), MigErrorKind::DiskTooSmall);
    let mut f = nuc_facts();
    f.lsblk_success = false;
    assert_eq!(err_kind(LinuxMigrator::try_init(config(), f)), MigErrorKind::ExternalCommandFailed);
    let mut f = nuc_facts();
    f.kernel = None;
    assert_eq!(err_kind(LinuxMigrator::try_init(config(), f)), MigErrorKind::MissingFile);
    let mut f = nuc_facts();
    f.initrd = file("initrd", 10, vec![0, 0]);
    assert_eq!(err_kind(LinuxMigrator::try_init(config(), f)), MigErrorKind::InvalidFileType);
    let mut f = nuc_facts();
    f.efi_path = Some(part("/boot/efi", "/dev/sda2", "/dev/sda", (18 << 20) + 8191));
    assert_eq!(err_kind(LinuxMigrator::try_init(config(), f)), MigErrorKind::InsufficientBootSpace);
    let mut f = nuc_facts();
    f.efi_path = Some(part("/boot/efi", "/dev/sda2", "/dev/sda", (18 << 20) + 8192));
    assert!(LinuxMigrator::try_init(config(), f).is_ok());
    let mut c = config();
    c.balena_section = false;
    assert_eq!(err_kind(LinuxMigrator::try_init(c, nuc_facts())), MigErrorKind::InvalidParam);
    let mut f = nuc_facts();
    f.mem_total = (400 << 20) + (128 << 20) - 1;
    assert_eq!(err_kind(LinuxMigrator::try_init(config(), f)), MigErrorKind::InsufficientMemory);
    let mut f = nuc_facts();
    f.balena_config = file("config.json", 10, b"deviceType".to_vec());
    assert_eq!(err_kind(LinuxMigrator::try_init(config(), f)), MigErrorKind::InvalidFileType);
    let mut f = pi_facts();
    f.work_files.pop();
    assert_eq!(err_kind(LinuxMigrator::try_init(config(), f)), MigErrorKind::InvalidState);
}

#[test]
fn migrate_follows_the_mode() {
    let r = LinuxMigrator::migrate(config(), nuc_facts()).ok().unwrap();
    assert!(r.is_some());
    let mut c = config();
    c.mode = MigMode::Pretend;
    assert!(LinuxMigrator::migrate(c, nuc_facts()).ok().unwrap().is_none());
    let mut c = config();
    c.mode = MigMode::Agent;
    match LinuxMigrator::migrate(c, nuc_facts()) {
        Err(e) => assert_eq!(e.kind, MigErrorKind::NotImplemented),
        Ok(_) => panic!("agent mode ran"),
    }
}

#[test]
fn lsblk_output_with_and_without_uuid() {
    let l = drive_layout_from_lsblk("/dev/sda", true, "SIZE UUID\n500107862016 a1b2c3d4-...\n").ok().unwrap();
    assert_eq!(l.size, 500107862016);
    assert_eq!(l.uuid, "a1b2c3d4-...");
    assert_eq!(l.drive, "/dev/sda");
    let l = drive_layout_from_lsblk("/dev/sda", true, "SIZE UUID\n500107862016 \n").ok().unwrap();
    assert_eq!(l.size, 500107862016);
    assert_eq!(l.uuid, "");
    assert_eq!(
        drive_layout_from_lsblk("/dev/sda", true, "  SIZE UUID\n  42\t\tabc def").err().unwrap().kind,
        MigErrorKind::InvalidParam
    );
    let l = drive_layout_from_lsblk("/dev/sda", true, "SIZE UUID\n42\t\tabc def").ok().unwrap();
    assert_eq!((l.size, l.uuid.as_str()), (42, "abc def"));
}

#[test]
fn lsblk_output_errors() {
    let kind = |r: Result<balena_migrate::disk::DriveLayout, MigError>| r.err().unwrap().kind;
    assert_eq!(kind(drive_layout_from_lsblk("/dev/sda", false, "SIZE UUID\n1 x")), MigErrorKind::ExternalCommandFailed);
    assert_eq!(kind(drive_layout_from_lsblk("/dev/sda", true, " \n ")), MigErrorKind::ExternalCommandFailed);
    assert_eq!(kind(drive_layout_from_lsblk("/dev/sda", true, "SIZE UUID")), MigErrorKind::InvalidParam);
    assert_eq!(kind(drive_layout_from_lsblk("/dev/sda", true, "SIZE UUID\n99999999999999999999 x")), MigErrorKind::InvalidParam);
    let l = drive_layout_from_lsblk("/dev/sda", true, "SIZE UUID\n18446744073709551615").ok().unwrap();
    assert_eq!(l.size, u64::MAX);
    assert_eq!(drive_layout_from_lsblk("/dev/sda", true, "SIZE UUID\n12ab").err().unwrap().kind, MigErrorKind::InvalidParam);
}

#[test]
fn same_drive_gate() {
    let root = part("/", "/dev/sda1", "/dev/sda", 0);
    let boot = part("/boot", "/dev/sda2", "/dev/sda", 0);
    assert!(check_same_drive(&root, &boot, &None).is_ok());
    let other = part("/boot", "/dev/sdb1", "/dev/sdb", 0);
    assert_eq!(check_same_drive(&root, &other, &None).err().unwrap().kind, MigErrorKind::SplitDriveLayout);
    assert_eq!(check_same_drive(&root, &boot, &Some(other.clone())).err().unwrap().kind, MigErrorKind::SplitDriveLayout);
}

#[test]
fn device_classification() {
    assert_eq!(classify_arm(OSArch::ARMHF, "Raspberry Pi 3 Model B Rev 1.2").ok(), Some(DeviceType::RaspberryPi3));
    assert_eq!(classify_arm(OSArch::ARMHF, "TI AM335x BeagleBone Black").ok(), Some(DeviceType::BeagleboneBlack));
    assert_eq!(classify_arm(OSArch::ARM64, "Raspberry Pi 4 Model B Rev 1.1").ok(), Some(DeviceType::RaspberryPi4));
    assert_eq!(classify_arm(OSArch::ARM64, "Raspberry Pi 3 Model B").err().unwrap().kind, MigErrorKind::UnsupportedDevice);
    assert_eq!(classify_arm(OSArch::ARMHF, "").err().unwrap().kind, MigErrorKind::UnsupportedDevice);
}

#[test]
fn intel_nuc_from_config() {
    let n = IntelNuc::from_config("Ubuntu 16.04.2 LTS", false, SecureBoot::Unknown, Ok(true)).ok().unwrap();
    assert_eq!(n.get_boot_type(), BootType::GrubBios);
    assert_eq!(n.get_device_slug(), "intel-nuc");
    assert_eq!(
        IntelNuc::from_config("Raspbian GNU/Linux 9 (stretch)", true, SecureBoot::Off, Ok(true)).err().unwrap().kind,
        MigErrorKind::UnsupportedOs
    );
    let upstream = MigError { kind: MigErrorKind::ExternalCommandFailed, remark: String::new() };
    assert_eq!(
        IntelNuc::from_config("Ubuntu 14.04.5 LTS", true, SecureBoot::Off, Err(upstream)).err().unwrap().kind,
        MigErrorKind::ExternalCommandFailed
    );
    assert_eq!(IntelNuc::from_boot_type(&BootType::GrubEfi).get_boot_type(), BootType::GrubEfi);
}

fn mounts() -> Vec<MountEntry> {
    [("/", "/dev/sda2"), ("/boot", "/dev/sda1"), ("/boot/efi", "/dev/sda3"), ("/home", "/dev/sdb1"), ("/home", "/dev/sdc1")]
        .iter()
        .map(|(m, d)| MountEntry { mount_point: m.to_string(), device: d.to_string(), fs_type: "ext4".to_string() })
        .collect()
}

#[test]
fn paths_resolve_to_their_mount() {
    let ms = mounts();
    assert_eq!(resolve_mount(&ms, "/boot/config.txt"), Some(1));
    assert_eq!(resolve_mount(&ms, "/boot/efi/EFI"), Some(2));
    assert_eq!(resolve_mount(&ms, "/bootx/file"), Some(0));
    assert_eq!(resolve_mount(&ms, "/home/balena"), Some(4));
    assert_eq!(resolve_mount(&ms, "/"), Some(0));
    assert_eq!(resolve_mount(&ms, "relative"), None);
    let i = resolve_mount(&ms, "/boot/efi/EFI/balena").unwrap();
    assert_eq!(resolve_mount(&ms, &ms[i].mount_point), Some(i));
}
