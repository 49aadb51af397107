use vstd::prelude::*;
use crate::arch::OSArch;
use crate::boot::BootType;
use crate::device::{
    arm_device, classify_arm, is_listed, listed, nuc_outcome, kind_of, Device, DeviceType,
    IntelNuc, SecureBoot, device_slug, slug_of,
};
use crate::disk::{
    check_same_drive, drive_layout_from_lsblk, lsblk_layout, same_drive, DriveLayout,
    PartitionInfo,
};
use crate::error::{MigError, MigErrorKind};
use crate::files::{expect_type, has_signature, FileInfo, FileType};
use crate::raspi::{dtbs_present, find_name, has_name, RaspiBootManager};

verus! {

/// The commands that the migration cannot do without.
pub const REQUIRED_CMDS: [&'static str; 7] = [
    "df",
    "lsblk",
    "file",
    "uname",
    "mount",
    "reboot",
    "chmod",
];

/// The host systems that the migration was tested on.
pub const SUPPORTED_OSSES: [&'static str; 5] = [
    "Ubuntu 18.04.2 LTS",
    "Ubuntu 16.04.2 LTS",
    "Ubuntu 14.04.2 LTS",
    "Raspbian GNU/Linux 9 (stretch)",
    "Debian GNU/Linux 9 (stretch)",
];

/// Memory kept free besides the image that stage 2 holds in RAM: 128 MiB.
pub const MEM_THRESHOLD: u64 = 134217728;

/// The smallest installation drive: 2 GiB.
pub const MIN_DISK_SIZE: u64 = 2147483648;

/// Space kept free on the boot partition besides kernel and initramfs.
pub const BOOT_SPACE_MARGIN: u64 = 8192;

/// What a run does once the host has passed the checks.
#[derive(Clone, Copy, Debug, PartialEq, Eq, Structural)]
pub enum MigMode {
    Immediate,
    Pretend,
    Agent,
}

/// The operator's choices.
#[derive(Clone, Debug)]
pub struct Config {
    pub mode: MigMode,
    /// A device slug that replaces the detected one.
    pub force_slug: Option<String>,
    /// Whether the configuration names the balenaOS image and config.
    pub balena_section: bool,
}

/// What the host reports, gathered before any decision is taken.
pub struct HostFacts {
    /// The names of the commands found on the path.
    pub found_cmds: Vec<String>,
    pub is_admin: bool,
    pub os_name: String,
    pub os_arch: OSArch,
    pub efi_boot: bool,
    pub secure_boot: SecureBoot,
    /// The device-tree model; empty where there is none.
    pub device_model: String,
    /// What the GRUB boot manager found of its prerequisites (Intel hosts).
    pub grub_ready: Result<bool, MigError>,
    pub boot_dir_exists: bool,
    /// The names of the files in the work directory.
    pub work_files: Vec<String>,
    pub boot_path: Option<PartitionInfo>,
    pub efi_path: Option<PartitionInfo>,
    pub root_path: Option<PartitionInfo>,
    pub work_path: Option<PartitionInfo>,
    /// How `lsblk -b --output=SIZE,UUID` on the root drive ended, and what it printed.
    pub lsblk_success: bool,
    pub lsblk_output: String,
    pub kernel: Option<FileInfo>,
    pub initrd: Option<FileInfo>,
    pub image: Option<FileInfo>,
    pub balena_config: Option<FileInfo>,
    /// Total memory in bytes.
    pub mem_total: u64,
}

/// What the checks established about the host.
pub struct MigrateInfo {
    pub os_name: String,
    pub os_arch: OSArch,
    pub efi_boot: bool,
    pub device_slug: String,
    pub drive: DriveLayout,
    pub boot_path: PartitionInfo,
    pub efi_path: Option<PartitionInfo>,
    pub root_path: PartitionInfo,
    pub work_path: Option<PartitionInfo>,
    pub kernel: FileInfo,
    pub initrd: FileInfo,
    pub image: FileInfo,
    pub balena_config: FileInfo,
}

/// A host that passed every check, ready to be migrated.
pub struct LinuxMigrator {
    pub config: Config,
    pub mig_info: MigrateInfo,
    pub device: Device,
}

/// The kernel kind that an architecture boots.
pub open spec fn kernel_type(arch: OSArch) -> FileType {
    match arch {
        OSArch::ARMHF => FileType::KernelARMHF,
        OSArch::ARM64 => FileType::KernelARM64,
        OSArch::I386 => FileType::KernelI386,
        _ => FileType::KernelAMD64,
    }
}

pub fn kernel_type_of(arch: OSArch) -> (r: FileType)
    ensures
        r == kernel_type(arch),
{
    match arch {
        OSArch::ARMHF => FileType::KernelARMHF,
        OSArch::ARM64 => FileType::KernelARM64,
        OSArch::I386 => FileType::KernelI386,
        _ => FileType::KernelAMD64,
    }
}

/// Whether every required command was found.
pub open spec fn cmds_present(found: Seq<String>) -> bool {
    forall|i: int| 0 <= i < 7 ==> #[trigger] has_name(found, REQUIRED_CMDS@[i]@)
}

/// The Raspberry Pi boot manager's verdict on the host.
pub open spec fn raspi_outcome(f: HostFacts, d: DeviceType) -> Result<Device, MigErrorKind> {
    let bt = if d == DeviceType::RaspberryPi4 {
        BootType::Raspi64
    } else {
        BootType::Raspi
    };
    if !f.boot_dir_exists {
        Err(MigErrorKind::InvalidState)
    } else if f.boot_path is None {
        Err(MigErrorKind::Displayed)
    } else if !dtbs_present(f.work_files@, bt) {
        Err(MigErrorKind::InvalidState)
    } else {
        Ok(Device { device_type: d, boot_type: bt })
    }
}

/// The first stage of the checks: commands, privilege, host system and
/// the device it runs on.
pub open spec fn host_outcome(f: HostFacts) -> Result<Device, MigErrorKind> {
    if !cmds_present(f.found_cmds@) {
        Err(MigErrorKind::MissingCommand)
    } else if !f.is_admin {
        Err(MigErrorKind::InsufficientPrivilege)
    } else if !listed(SUPPORTED_OSSES@, f.os_name@) {
        Err(MigErrorKind::UnsupportedOs)
    } else if f.os_arch == OSArch::AMD64 {
        match nuc_outcome(f.os_name@, f.efi_boot, f.secure_boot, kind_of(f.grub_ready)) {
            Ok(b) => Ok(Device { device_type: DeviceType::IntelNuc, boot_type: b }),
            Err(k) => Err(k),
        }
    } else if f.os_arch == OSArch::ARMHF || f.os_arch == OSArch::ARM64 {
        match arm_device(f.os_arch, f.device_model@) {
            None => Err(MigErrorKind::UnsupportedDevice),
            Some(DeviceType::BeagleboneBlack) => Ok(
                Device { device_type: DeviceType::BeagleboneBlack, boot_type: BootType::UBoot },
            ),
            Some(d) => raspi_outcome(f, d),
        }
    } else {
        Err(MigErrorKind::UnsupportedArchitecture)
    }
}

/// The second stage: `/boot` and `/` resolved, on one drive with the EFI
/// partition, and that drive large enough. Gives its size and UUID.
pub open spec fn disk_outcome(f: HostFacts) -> Result<(nat, Seq<char>), MigErrorKind> {
    match (f.boot_path, f.root_path) {
        (None, _) => Err(MigErrorKind::InvalidState),
        (_, None) => Err(MigErrorKind::InvalidState),
        (Some(boot), Some(root)) => if !same_drive(
            root,
            boot,
            if f.efi_boot {
                f.efi_path
            } else {
                None
            },
        ) {
            Err(MigErrorKind::SplitDriveLayout)
        } else {
            match lsblk_layout(f.lsblk_success, f.lsblk_output@) {
                Err(k) => Err(k),
                Ok((size, uuid)) => if size < MIN_DISK_SIZE {
                    Err(MigErrorKind::DiskTooSmall)
                } else {
                    Ok((size, uuid))
                },
            }
        },
    }
}

/// A supplied file must be there and be of its kind.
pub open spec fn file_outcome(fi: Option<FileInfo>, t: FileType) -> Result<(), MigErrorKind> {
    match fi {
        None => Err(MigErrorKind::MissingFile),
        Some(i) => if !has_signature(i.header@, t) {
            Err(MigErrorKind::InvalidFileType)
        } else {
            Ok(())
        },
    }
}

/// The third stage: kernel and initramfs, room for them on the boot
/// partition, then the balenaOS image (which must fit in memory) and config.
pub open spec fn files_outcome(c: Config, f: HostFacts) -> Result<(), MigErrorKind> {
    if file_outcome(f.kernel, kernel_type(f.os_arch)) is Err {
        file_outcome(f.kernel, kernel_type(f.os_arch))
    } else if file_outcome(f.initrd, FileType::InitRD) is Err {
        file_outcome(f.initrd, FileType::InitRD)
    } else {
        let target = if f.efi_boot {
            f.efi_path
        } else {
            f.boot_path
        };
        let needed = BOOT_SPACE_MARGIN + f.kernel->0.size + f.initrd->0.size;
        if target is None {
            Err(MigErrorKind::InvalidState)
        } else if target->0.fs_free < needed {
            Err(MigErrorKind::InsufficientBootSpace)
        } else if !c.balena_section {
            Err(MigErrorKind::InvalidParam)
        } else if file_outcome(f.image, FileType::OSImage) is Err {
            file_outcome(f.image, FileType::OSImage)
        } else if f.mem_total < f.image->0.size + MEM_THRESHOLD {
            Err(MigErrorKind::InsufficientMemory)
        } else {
            file_outcome(f.balena_config, FileType::JsonConfig)
        }
    }
}

/// The slug a run uses: the operator's, else the detected device's.
pub open spec fn chosen_slug(c: Config, d: Device) -> Seq<char> {
    match c.force_slug {
        Some(s) => s@,
        None => slug_of(d.device_type),
    }
}

/// The checks of a run in their order: the first that fails decides the
/// error; where none fails, the device and the drive's size and UUID.
pub open spec fn preflight(c: Config, f: HostFacts) -> Result<(Device, (nat, Seq<char>)), MigErrorKind> {
    match host_outcome(f) {
        Err(k) => Err(k),
        Ok(d) => match disk_outcome(f) {
            Err(k) => Err(k),
            Ok(l) => match files_outcome(c, f) {
                Err(k) => Err(k),
                Ok(_) => Ok((d, l)),
            },
        },
    }
}

fn check_file(fi: &Option<FileInfo>, t: FileType) -> (r: Result<(), MigError>)
    ensures
        kind_of(r) == file_outcome(*fi, t),
{
    match fi {
        None => Err(MigError::from_remark(MigErrorKind::MissingFile, "a required file has not been specified or cannot be accessed")),
        Some(i) => if !expect_type(&i.header, t) {
            Err(MigError::from_remark(MigErrorKind::InvalidFileType, "a supplied file is not of the expected type"))
        } else {
            Ok(())
        },
    }
}

fn check_host(f: &HostFacts) -> (r: Result<Device, MigError>)
    ensures
        kind_of(r) == host_outcome(*f),
{
    let mut i: usize = 0;
    while i < 7
        invariant
            i <= 7,
            forall|j: int| 0 <= j < i ==> #[trigger] has_name(f.found_cmds@, REQUIRED_CMDS@[j]@),
        decreases 7 - i,
    {
        if !find_name(&f.found_cmds, REQUIRED_CMDS[i]) {
            return Err(MigError::from_remark(MigErrorKind::MissingCommand, "a required command is missing"));
        }
        i = i + 1;
    }
    if !f.is_admin {
        return Err(MigError::from_remark(MigErrorKind::InsufficientPrivilege, "this program must be run as root"));
    }
    if !is_listed(&SUPPORTED_OSSES, f.os_name.as_str()) {
        return Err(MigError::from_remark(MigErrorKind::UnsupportedOs, "the OS is not supported"));
    }
    if f.os_arch == OSArch::AMD64 {
        let grub_ready = match &f.grub_ready {
            Ok(b) => Ok(*b),
            Err(e) => Err(MigError { kind: e.kind, remark: e.remark.clone() }),
        };
        let nuc = IntelNuc::from_config(f.os_name.as_str(), f.efi_boot, f.secure_boot, grub_ready);
        match nuc {
            Ok(n) => Ok(Device { device_type: DeviceType::IntelNuc, boot_type: n.boot_type }),
            Err(e) => Err(e),
        }
    } else if f.os_arch == OSArch::ARMHF || f.os_arch == OSArch::ARM64 {
        let d = match classify_arm(f.os_arch, f.device_model.as_str()) {
            Ok(d) => d,
            Err(e) => {
                return Err(e);
            },
        };
        if d == DeviceType::BeagleboneBlack {
            return Ok(Device { device_type: d, boot_type: BootType::UBoot });
        }
        let bt = if d == DeviceType::RaspberryPi4 {
            BootType::Raspi64
        } else {
            BootType::Raspi
        };
        let mut mgr = match RaspiBootManager::new(bt) {
            Ok(m) => m,
            Err(e) => {
                return Err(e);
            },
        };
        let boot_path = match &f.boot_path {
            Some(p) => Some(p.duplicate()),
            None => None,
        };
        match mgr.can_migrate(f.boot_dir_exists, boot_path, &f.work_files) {
            Err(e) => Err(e),
            Ok(false) => Err(MigError::from_remark(MigErrorKind::InvalidState, "the boot manager is not able to set up the device")),
            Ok(true) => Ok(Device { device_type: d, boot_type: bt }),
        }
    } else {
        Err(MigError::from_remark(MigErrorKind::UnsupportedArchitecture, "unexpected OS architecture"))
    }
}

fn check_disk(f: &HostFacts) -> (r: Result<DriveLayout, MigError>)
    ensures
        match disk_outcome(*f) {
            Ok((size, uuid)) => r matches Ok(l) && l.size == size && l.uuid@ == uuid && f.root_path
                is Some && l.drive@ == f.root_path->0.drive@,
            Err(k) => r matches Err(e) && e.kind == k,
        },
{
    let boot = match &f.boot_path {
        None => {
            return Err(MigError::from_remark(MigErrorKind::InvalidState, "unable to retrieve attributes of the /boot file system"));
        },
        Some(b) => b,
    };
    let root = match &f.root_path {
        None => {
            return Err(MigError::from_remark(MigErrorKind::InvalidState, "unable to retrieve attributes of the / file system"));
        },
        Some(r) => r,
    };
    let efi = if f.efi_boot {
        match &f.efi_path {
            Some(e) => Some(e.duplicate()),
            None => None,
        }
    } else {
        None
    };
    check_same_drive(root, boot, &efi)?;
    let layout = drive_layout_from_lsblk(root.drive.as_str(), f.lsblk_success, f.lsblk_output.as_str())?;
    if layout.size < MIN_DISK_SIZE {
        return Err(MigError::from_remark(MigErrorKind::DiskTooSmall, "the drive is too small to install balenaOS"));
    }
    Ok(layout)
}

fn check_files(c: &Config, f: &HostFacts) -> (r: Result<(), MigError>)
    ensures
        kind_of(r) == files_outcome(*c, *f),
{
    check_file(&f.kernel, kernel_type_of(f.os_arch))?;
    check_file(&f.initrd, FileType::InitRD)?;
    let kernel_size = match &f.kernel {
        Some(k) => k.size,
        None => 0,
    };
    let initrd_size = match &f.initrd {
        Some(i) => i.size,
        None => 0,
    };
    let needed: u128 = BOOT_SPACE_MARGIN as u128 + kernel_size as u128 + initrd_size as u128;
    let target = if f.efi_boot {
        &f.efi_path
    } else {
        &f.boot_path
    };
    match target {
        None => {
            return Err(MigError::from_remark(MigErrorKind::InvalidState, "no path info found for the boot files"));
        },
        Some(t) => {
            if (t.fs_free as u128) < needed {
                return Err(MigError::from_remark(MigErrorKind::InsufficientBootSpace, "not enough space for the migrate boot environment"));
            }
        },
    }
    if !c.balena_section {
        return Err(MigError::from_remark(MigErrorKind::InvalidParam, "the balena section of the configuration is empty"));
    }
    check_file(&f.image, FileType::OSImage)?;
    let image_size = match &f.image {
        Some(i) => i.size,
        None => 0,
    };
    if (f.mem_total as u128) < image_size as u128 + MEM_THRESHOLD as u128 {
        return Err(MigError::from_remark(MigErrorKind::InsufficientMemory, "not enough memory to hold the balena OS image"));
    }
    check_file(&f.balena_config, FileType::JsonConfig)
}

impl LinuxMigrator {
    /// Runs every check on the host, in order, and stops at the first
    /// that fails; touches nothing on the host.
    pub fn try_init(config: Config, facts: HostFacts) -> (r: Result<LinuxMigrator, MigError>)
        ensures
            match preflight(config, facts) {
                Err(k) => r matches Err(e) && e.kind == k,
                Ok((d, (size, uuid))) => r matches Ok(m) && m.device == d
                    && m.mig_info.device_slug@ == chosen_slug(config, d) && m.mig_info.drive.size
                    == size && m.mig_info.drive.uuid@ == uuid && m.mig_info.os_arch
                    == facts.os_arch && m.mig_info.efi_boot == facts.efi_boot && m.config.mode
                    == config.mode && m.mig_info.os_name == facts.os_name
                    && facts.root_path == Some(m.mig_info.root_path) && m.mig_info.drive.drive@
                    == m.mig_info.root_path.drive@ && facts.boot_path == Some(m.mig_info.boot_path)
                    && m.mig_info.efi_path == facts.efi_path && m.mig_info.work_path
                    == facts.work_path && facts.kernel == Some(m.mig_info.kernel) && facts.initrd
                    == Some(m.mig_info.initrd) && facts.image == Some(m.mig_info.image)
                    && facts.balena_config == Some(m.mig_info.balena_config),
            },
    {
        let device = check_host(&facts)?;
        let drive = check_disk(&facts)?;
        check_files(&config, &facts)?;
        let device_slug = match &config.force_slug {
            Some(s) => s.clone(),
            None => String::from_str(device_slug(device.device_type)),
        };
        let HostFacts {
            os_name,
            os_arch,
            efi_boot,
            boot_path,
            efi_path,
            root_path,
            work_path,
            kernel,
            initrd,
            image,
            balena_config,
            ..
        } = facts;
        match (boot_path, root_path, kernel, initrd, image, balena_config) {
            (Some(boot_path), Some(root_path), Some(kernel), Some(initrd), Some(image), Some(balena_config)) => {
                Ok(LinuxMigrator {
                    config,
                    mig_info: MigrateInfo {
                        os_name,
                        os_arch,
                        efi_boot,
                        device_slug,
                        drive,
                        boot_path,
                        efi_path,
                        root_path,
                        work_path,
                        kernel,
                        initrd,
                        image,
                        balena_config,
                    },
                    device,
                })
            },
            _ => Err(MigError::displayed()),
        }
    }

    /// Checks the host, then decides by the configured mode: a host to
    /// migrate now, nothing to do (a trial run), or not implemented.
    pub fn migrate(config: Config, facts: HostFacts) -> (r: Result<Option<LinuxMigrator>, MigError>)
        ensures
            match preflight(config, facts) {
                Err(k) => r matches Err(e) && e.kind == k,
                Ok((d, (size, uuid))) => match config.mode {
                    MigMode::Immediate => r matches Ok(Some(m)) && m.device == d
                        && m.mig_info.device_slug@ == chosen_slug(config, d) && m.mig_info.drive.size
                        == size && m.mig_info.drive.uuid@ == uuid && m.mig_info.os_arch
                        == facts.os_arch && m.mig_info.efi_boot == facts.efi_boot && m.config.mode
                        == config.mode && m.mig_info.os_name == facts.os_name
                        && facts.root_path == Some(m.mig_info.root_path) && m.mig_info.drive.drive@
                        == m.mig_info.root_path.drive@ && facts.boot_path == Some(
                        m.mig_info.boot_path,
                    ) && m.mig_info.efi_path == facts.efi_path && m.mig_info.work_path
                        == facts.work_path && facts.kernel == Some(m.mig_info.kernel)
                        && facts.initrd == Some(m.mig_info.initrd) && facts.image == Some(
                        m.mig_info.image,
                    ) && facts.balena_config == Some(m.mig_info.balena_config),
                    MigMode::Pretend => r matches Ok(None),
                    MigMode::Agent => r matches Err(e) && e.kind == MigErrorKind::NotImplemented,
                },
            },
    {
        let mode = config.mode;
        let migrator = LinuxMigrator::try_init(config, facts)?;
        match mode {
            MigMode::Immediate => Ok(Some(migrator)),
            MigMode::Pretend => Ok(None),
            MigMode::Agent => Err(MigError::from_remark(MigErrorKind::NotImplemented, "agent mode is not implemented")),
        }
    }
}

} // verus!
