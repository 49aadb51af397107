use balena_migrate::boot::BootType;
use balena_migrate::error::MigErrorKind;
use balena_migrate::raspi::{cmdline_txt_contents, config_txt_contents, has_balena_tag, RaspiBootManager};
use balena_migrate::disk::PartitionInfo;

fn count_active(text: &str, key: &str) -> usize {
    text.lines().filter(|l| l.trim_start().starts_with(key)).count()
}

fn boot_part() -> PartitionInfo {
    PartitionInfo {
        path: "/boot".to_string(),
        device: "/dev/mmcblk0p1".to_string(),
        drive: "/dev/mmcblk0".to_string(),
        fs_type: "vfat".to_string(),
        fs_size: 43000000,
        fs_free: 20000000,
    }
}

#[test]
fn pi3_config_txt_comments_boot_lines() {
    let out = config_txt_contents("kernel=kernel7.img\ninitramfs foo followkernel\nenable_uart=0", BootType::Raspi);
    assert_eq!(
        out,
        "## created by balena-migrate\n# kernel=kernel7.img\n# initramfs foo followkernel\n# enable_uart=0\nenable_uart=1\ninitramfs balena.initramfs.cpio.gz followkernel\nkernel balena.zImage\n"
    );
    let mgr = RaspiBootManager::new(BootType::Raspi).ok().unwrap();
    let backups = mgr.setup_backups(&vec![], false, 1554000000);
    assert_eq!(
        backups,
        vec![
            ("config.txt".to_string(), "config.txt.1554000000".to_string()),
            ("cmdline.txt".to_string(), "cmdline.txt.1554000000".to_string()),
        ]
    );
}

#[test]
fn pi4_config_txt_sets_arm_64bit_once() {
    let out = config_txt_contents("gpu_mem=16\narm_64bit=0\n", BootType::Raspi64);
    assert!(out.contains("\n# arm_64bit=0\n"));
    assert_eq!(out.matches("arm_64bit=1").count(), 1);
    assert_eq!(count_active(&out, "arm_64bit"), 1);
    assert_eq!(count_active(&out, "kernel"), 1);
    assert_eq!(count_active(&out, "initramfs"), 1);
    assert!(out.contains("\ngpu_mem=16\n"));
}

#[test]
fn pi3_config_txt_keeps_arm_64bit_and_indented_keys() {
    let out = config_txt_contents("  kernel=old.img\r\narm_64bit=0\n", BootType::Raspi);
    assert!(out.contains("\n#   kernel=old.img\n"));
    assert!(out.contains("\narm_64bit=0\n"));
    assert_eq!(count_active(&out, "kernel"), 1);
}

#[test]
fn rewritten_config_is_not_marked_twice() {
    let first = config_txt_contents("kernel=kernel7.img\n", BootType::Raspi);
    assert!(has_balena_tag(&first));
    assert!(!has_balena_tag("kernel=kernel7.img\n"));
    let second = config_txt_contents(&first, BootType::Raspi);
    assert_eq!(second.matches("## created by balena-migrate").count(), 1);
    assert_eq!(count_active(&second, "kernel"), 1);
    assert_eq!(count_active(&second, "initramfs"), 1);
    let mgr = RaspiBootManager::new(BootType::Raspi).ok().unwrap();
    assert!(mgr.setup_backups(&vec![], true, 5).is_empty());
}

#[test]
fn empty_config_txt_gets_boot_lines() {
    let out = config_txt_contents("", BootType::Raspi);
    assert_eq!(
        out,
        "## created by balena-migrate\nenable_uart=1\ninitramfs balena.initramfs.cpio.gz followkernel\nkernel balena.zImage\n"
    );
}

#[test]
fn cmdline_txt_sets_root_fs_and_consoles() {
    let out = cmdline_txt_contents(
        "dwc_otg.lpm_enable=0 console=serial0,115200 console=tty1 root=PARTUUID=abc-02 rootfstype=ext4 elevator=deadline fsck.repair=yes rootwait\n",
        "/dev/mmcblk0p2",
        "ext4",
        "",
    );
    assert_eq!(
        out,
        "dwc_otg.lpm_enable=0   elevator=deadline fsck.repair=yes rootwait root=/dev/mmcblk0p2 rootfstype=ext4 console=tty1 console=serial0,115200\n"
    );
    assert_eq!(out.matches("root=").count(), 1);
    assert_eq!(out.matches("rootfstype=").count(), 1);
    assert!(out.ends_with("115200\n"));
}

#[test]
fn cmdline_txt_appends_missing_tokens_and_options() {
    let out = cmdline_txt_contents("quiet", "/dev/mmcblk0p2", "btrfs", "debug");
    assert_eq!(
        out,
        "quiet root=/dev/mmcblk0p2 rootfstype=btrfs console=tty1 console=serial0,115200 debug\n"
    );
}

#[test]
fn cmdline_txt_trailing_console_token_at_end() {
    let out = cmdline_txt_contents("root=/dev/sda2 console=ttyAMA0", "/dev/sda2", "ext4", "");
    assert_eq!(out, "   root=/dev/sda2 rootfstype=ext4 console=tty1 console=serial0,115200\n");
    assert_eq!(out.matches('\n').count(), 1);
}

#[test]
fn raspi_manager_rejects_other_boot_types() {
    match RaspiBootManager::new(BootType::GrubEfi) {
        Err(e) => assert_eq!(e.kind, MigErrorKind::Displayed),
        Ok(_) => panic!("a GRUB boot type was accepted"),
    }
    let m = RaspiBootManager::new(BootType::Raspi64).ok().unwrap();
    assert_eq!(m.dtb_files, vec!["bcm2711-rpi-4-b.dtb"]);
    let m = RaspiBootManager::new(BootType::Raspi).ok().unwrap();
    assert_eq!(m.dtb_files, vec!["bcm2710-rpi-3-b.dtb", "bcm2710-rpi-3-b-plus.dtb"]);
}

#[test]
fn raspi_can_migrate_needs_boot_and_blobs() {
    let mut m = RaspiBootManager::new(BootType::Raspi).ok().unwrap();
    let all = vec!["bcm2710-rpi-3-b.dtb".to_string(), "bcm2710-rpi-3-b-plus.dtb".to_string(), "balena.img".to_string()];
    assert_eq!(m.can_migrate(false, Some(boot_part()), &all).ok(), Some(false));
    assert!(m.bootmgr_path.is_none());
    match m.can_migrate(true, None, &all) {
        Err(e) => assert_eq!(e.kind, MigErrorKind::Displayed),
        Ok(_) => panic!("a missing /boot partition was accepted"),
    }
    assert_eq!(m.can_migrate(true, Some(boot_part()), &all).ok(), Some(true));
    assert_eq!(m.bootmgr_path.as_ref().map(|p| p.device.clone()), Some("/dev/mmcblk0p1".to_string()));
    let some = vec!["bcm2710-rpi-3-b.dtb".to_string()];
    assert_eq!(m.can_migrate(true, Some(boot_part()), &some).ok(), Some(false));
}

#[test]
fn raspi_backups_cover_blobs_present_in_boot() {
    let m = RaspiBootManager::new(BootType::Raspi).ok().unwrap();
    let in_boot = vec!["bcm2710-rpi-3-b-plus.dtb".to_string(), "config.txt".to_string()];
    let b = m.setup_backups(&in_boot, false, 42);
    assert_eq!(
        b,
        vec![
            ("bcm2710-rpi-3-b-plus.dtb".to_string(), "bcm2710-rpi-3-b-plus.dtb-42".to_string()),
            ("config.txt".to_string(), "config.txt.42".to_string()),
            ("cmdline.txt".to_string(), "cmdline.txt.42".to_string()),
        ]
    );
}

#[test]
fn cmdline_txt_options_lose_trailing_newlines() {
    let out = cmdline_txt_contents("root=/dev/sda2 rootfstype=ext4", "/dev/sda2", "ext4", "quiet\n");
    assert_eq!(out, "   root=/dev/sda2 rootfstype=ext4 console=tty1 console=serial0,115200 quiet\n");
    let out = cmdline_txt_contents("root=/dev/sda2", "/dev/sda2", "ext4", " \n\n");
    assert!(out.ends_with("console=serial0,115200\n"));
    assert!(!out.ends_with("\n\n"));
}

#[test]
fn cmdline_txt_keeps_one_root_and_fs_type() {
    let out = cmdline_txt_contents("root=a root=b", "d", "f", "");
    assert_eq!(out, "   root=d rootfstype=f console=tty1 console=serial0,115200\n");
    let out = cmdline_txt_contents("rootfstype=a rootfstype=b", "d", "f", "");
    assert_eq!(out, "   root=d rootfstype=f console=tty1 console=serial0,115200\n");
    let out = cmdline_txt_contents("quiet root=x rootfstype=y splash console=ttyS0", "/dev/sda2", "ext4", "");
    let tokens: Vec<&str> = out.split_whitespace().collect();
    assert_eq!(tokens.iter().filter(|t| t.starts_with("root=")).count(), 1);
    assert_eq!(tokens.iter().filter(|t| t.starts_with("rootfstype=")).count(), 1);
    assert_eq!(tokens, vec!["quiet", "splash", "root=/dev/sda2", "rootfstype=ext4", "console=tty1", "console=serial0,115200"]);
}
