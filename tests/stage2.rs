use balena_migrate::error::MigErrorKind;
use balena_migrate::stage2::{BackupEntry, FailMode, Stage2Config, Stage2Fields};
use yaml_rust::{Yaml, YamlLoader};

fn record(backups: Vec<(&str, &str)>) -> Stage2Config {
    Stage2Config {
        efi_boot: false,
        fail_mode: FailMode::Rescue,
        boot_device: "/dev/mmcblk0p1".to_string(),
        root_device: "/dev/mmcblk0p2".to_string(),
        device_slug: "raspberrypi3".to_string(),
        balena_config: "/home/balena/config.json".to_string(),
        balena_image: "/home/balena/balena.img.gz".to_string(),
        work_dir: "/home/balena".to_string(),
        bckup_cfg: backups.into_iter().map(|(a, b)| (a.to_string(), b.to_string())).collect(),
    }
}

fn text_field(d: &Yaml, key: &str) -> Option<String> {
    d[key].as_str().map(String::from)
}

fn fields_of(text: &str) -> Stage2Fields {
    let docs = YamlLoader::load_from_str(text).unwrap();
    let d = docs[0].clone();
    let backups = match &d["backup_config"] {
        Yaml::BadValue => None,
        Yaml::Array(items) => Some(
            items
                .iter()
                .map(|e| BackupEntry {
                    is_map: e.as_hash().is_some(),
                    orig: text_field(e, "orig"),
                    bckup: text_field(e, "bckup"),
                })
                .collect(),
        ),
        _ => Some(vec![]),
    };
    Stage2Fields {
        docs: docs.len(),
        efi_boot: d["efi_boot"].as_bool(),
        fail_mode: text_field(&d, "fail_mode"),
        device_slug: text_field(&d, "device_slug"),
        balena_image: text_field(&d, "balena_image"),
        balena_config: text_field(&d, "balena_config"),
        root_device: text_field(&d, "root_device"),
        boot_device: text_field(&d, "boot_device"),
        work_dir: text_field(&d, "work_dir"),
        backups,
    }
}

fn same(a: &Stage2Config, b: &Stage2Config) -> bool {
    a.efi_boot == b.efi_boot
        && a.fail_mode == b.fail_mode
        && a.boot_device == b.boot_device
        && a.root_device == b.root_device
        && a.device_slug == b.device_slug
        && a.balena_config == b.balena_config
        && a.balena_image == b.balena_image
        && a.work_dir == b.work_dir
        && a.bckup_cfg == b.bckup_cfg
}

#[test]
fn descriptor_text_layout() {
    let t = record(vec![("config.txt", "config.txt.42")]).to_text();
    assert_eq!(
        t,
        "# Balena Migrate Stage2 Config\nefi_boot: false\ndevice_slug: 'raspberrypi3'\nfail_mode: 'Rescue'\nbalena_image: '/home/balena/balena.img.gz'\nbalena_config: '/home/balena/config.json'\nroot_device: '/dev/mmcblk0p2'\nboot_device: '/dev/mmcblk0p1'\nwork_dir: '/home/balena'\n# backed up files in boot config\nbackup_config:\n  - orig:      'config.txt'\n    bckup:     'config.txt.42'\n"
    );
}

#[test]
fn descriptor_round_trip_empty_backups() {
    let d = record(vec![]);
    let back = Stage2Config::from_fields(fields_of(&d.to_text())).ok().unwrap();
    assert!(same(&d, &back));
}

#[test]
fn descriptor_round_trip_many_backups() {
    let d = record(vec![
        ("bcm2710-rpi-3-b.dtb", "bcm2710-rpi-3-b.dtb-42"),
        ("config.txt", "config.txt.42"),
        ("cmdline.txt", "cmdline.txt.42"),
    ]);
    let back = Stage2Config::from_fields(fields_of(&d.to_text())).ok().unwrap();
    assert!(same(&d, &back));
    assert_eq!(back.get_backups().len(), 3);
    assert_eq!(back.get_device_slug(), "raspberrypi3");
    assert_eq!(back.get_root_device(), "/dev/mmcblk0p2");
    assert_eq!(back.get_boot_device(), "/dev/mmcblk0p1");
    assert_eq!(back.get_balena_image(), "/home/balena/balena.img.gz");
    assert_eq!(back.get_balena_config(), "/home/balena/config.json");
    assert_eq!(back.get_work_path(), "/home/balena");
    assert_eq!(*back.get_fail_mode(), FailMode::Rescue);
    assert!(!back.is_efi_boot());
}

#[test]
fn descriptor_reader_tolerates_order_and_unknown_keys() {
    let text = "work_dir: '/w'\nextra: 1\nbackup_config:\n  - 7\n  - orig: 'a'\n    bckup: 'b'\nefi_boot: true\ndevice_slug: 'intel-nuc'\nroot_device: '/dev/sda2'\nboot_device: '/dev/sda1'\nbalena_image: '/w/i'\nbalena_config: '/w/c'\nfail_mode: 'Sometimes'\n";
    let c = Stage2Config::from_fields(fields_of(text)).ok().unwrap();
    assert!(c.is_efi_boot());
    assert_eq!(*c.get_fail_mode(), FailMode::Reboot);
    assert_eq!(c.get_backups(), &vec![("a".to_string(), "b".to_string())]);
}

#[test]
fn descriptor_reader_errors() {
    let mut f = fields_of(&record(vec![]).to_text());
    f.root_device = None;
    assert_eq!(Stage2Config::from_fields(f).err().unwrap().kind, MigErrorKind::InvalidParam);
    let mut f = fields_of(&record(vec![]).to_text());
    f.docs = 2;
    assert_eq!(Stage2Config::from_fields(f).err().unwrap().kind, MigErrorKind::InvalidParam);
    let mut f = fields_of(&record(vec![]).to_text());
    f.backups = Some(vec![BackupEntry { is_map: true, orig: Some("x".to_string()), bckup: None }]);
    assert_eq!(Stage2Config::from_fields(f).err().unwrap().kind, MigErrorKind::InvalidParam);
    let mut f = fields_of(&record(vec![]).to_text());
    f.backups = None;
    assert_eq!(Stage2Config::from_fields(f).err().unwrap().kind, MigErrorKind::InvalidParam);
}

#[test]
fn fail_mode_names() {
    assert_eq!(FailMode::from_name("Halt"), Some(FailMode::Halt));
    assert_eq!(FailMode::from_name("Reboot"), Some(FailMode::Reboot));
    assert_eq!(FailMode::from_name("halt"), None);
    assert_eq!(FailMode::Rescue.as_str(), "Rescue");
    assert_eq!(FailMode::get_default(), FailMode::Reboot);
}
