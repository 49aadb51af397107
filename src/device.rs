use vstd::prelude::*;
use crate::arch::OSArch;
use crate::boot::BootType;
use crate::error::{MigError, MigErrorKind};
use crate::text::{chars_of, contains, contains_chars};

verus! {

/// The supported hardware targets.
#[derive(Clone, Copy, Debug, PartialEq, Eq, Structural)]
pub enum DeviceType {
    IntelNuc,
    RaspberryPi3,
    RaspberryPi4,
    BeagleboneBlack,
}

/// The stable name of each target.
pub open spec fn slug_of(d: DeviceType) -> Seq<char> {
    match d {
        DeviceType::IntelNuc => "intel-nuc"@,
        DeviceType::RaspberryPi3 => "raspberrypi3"@,
        DeviceType::RaspberryPi4 => "raspberrypi4-64"@,
        DeviceType::BeagleboneBlack => "beaglebone-black"@,
    }
}

pub fn device_slug(d: DeviceType) -> (r: &'static str)
    ensures
        r@ == slug_of(d),
{
    match d {
        DeviceType::IntelNuc => "intel-nuc",
        DeviceType::RaspberryPi3 => "raspberrypi3",
        DeviceType::RaspberryPi4 => "raspberrypi4-64",
        DeviceType::BeagleboneBlack => "beaglebone-black",
    }
}

/// Whether `list` holds `name`.
pub open spec fn listed(list: Seq<&'static str>, name: Seq<char>) -> bool {
    exists|i: int| 0 <= i < list.len() && (#[trigger] list[i])@ == name
}

pub fn is_listed(list: &[&'static str], name: &str) -> (r: bool)
    ensures
        r == listed(list@, name@),
{
    let target = String::from_str(name);
    let mut i: usize = 0;
    while i < list.len()
        invariant
            target@ == name@,
            i <= list@.len(),
            forall|j: int| 0 <= j < i ==> (#[trigger] list@[j])@ != name@,
        decreases list.len() - i,
    {
        if String::from_str(list[i]) == target {
            assert(list@[i as int]@ == name@);
            return true;
        }
        i = i + 1;
    }
    false
}

/// The host systems on which the Intel NUC migration was tested.
pub const NUC_OSSES: [&'static str; 4] = [
    "Ubuntu 18.04.2 LTS",
    "Ubuntu 16.04.2 LTS",
    "Ubuntu 14.04.2 LTS",
    "Ubuntu 14.04.5 LTS",
];

/// What the firmware reports of secure boot; `Unknown` where it cannot be asked.
#[derive(Clone, Copy, Debug, PartialEq, Eq, Structural)]
pub enum SecureBoot {
    On,
    Off,
    Unknown,
}

/// Secure boot bars the migration on an EFI host unless it is known to be off.
pub open spec fn secure_boot_blocks(efi_boot: bool, sb: SecureBoot) -> bool {
    efi_boot && sb != SecureBoot::Off
}

/// The device of a target that has no boot manager of its own here, and
/// the boot-manager variant it runs.
#[derive(Clone, Copy, Debug, PartialEq, Eq, Structural)]
pub struct Device {
    pub device_type: DeviceType,
    pub boot_type: BootType,
}

/// An Intel NUC, booted by GRUB.
#[derive(Clone, Copy, Debug, PartialEq, Eq, Structural)]
pub struct IntelNuc {
    pub boot_type: BootType,
}

/// The outcome of setting up an Intel NUC: the host system must be one of
/// those tested, secure boot must not bar the way, and the GRUB boot
/// manager must be able to take over.
pub open spec fn nuc_outcome(
    os_name: Seq<char>,
    efi_boot: bool,
    sb: SecureBoot,
    grub_ready: Result<bool, MigErrorKind>,
) -> Result<BootType, MigErrorKind> {
    if !listed(NUC_OSSES@, os_name) {
        Err(MigErrorKind::UnsupportedOs)
    } else if secure_boot_blocks(efi_boot, sb) {
        Err(MigErrorKind::SecureBootEnabled)
    } else {
        match grub_ready {
            Err(k) => Err(k),
            Ok(false) => Err(MigErrorKind::InvalidState),
            Ok(true) => Ok(
                if efi_boot {
                    BootType::GrubEfi
                } else {
                    BootType::GrubBios
                },
            ),
        }
    }
}

/// The kind of a library error result.
pub open spec fn kind_of<T>(r: Result<T, MigError>) -> Result<T, MigErrorKind> {
    match r {
        Ok(v) => Ok(v),
        Err(e) => Err(e.kind),
    }
}

impl IntelNuc {
    /// Checks that the host can be migrated as an Intel NUC; `grub_ready`
    /// is what the GRUB boot manager found of its own prerequisites.
    pub fn from_config(
        os_name: &str,
        efi_boot: bool,
        secure_boot: SecureBoot,
        grub_ready: Result<bool, MigError>,
    ) -> (r: Result<IntelNuc, MigError>)
        ensures
            match nuc_outcome(os_name@, efi_boot, secure_boot, kind_of(grub_ready)) {
                Ok(b) => r == Ok::<IntelNuc, MigError>(IntelNuc { boot_type: b }),
                Err(k) => r matches Err(e) && e.kind == k,
            },
    {
        if !is_listed(&NUC_OSSES, os_name) {
            return Err(MigError::from_remark(MigErrorKind::UnsupportedOs, "the OS is not supported for device type IntelNuc"));
        }
        if efi_boot && secure_boot != SecureBoot::Off {
            return Err(MigError::from_remark(MigErrorKind::SecureBootEnabled, "systems with secure boot enabled are not supported"));
        }
        match grub_ready {
            Err(e) => Err(e),
            Ok(false) => Err(MigError::from_remark(MigErrorKind::InvalidState, "the boot manager is not able to set up the device")),
            Ok(true) => Ok(IntelNuc { boot_type: if efi_boot { BootType::GrubEfi } else { BootType::GrubBios } }),
        }
    }

    pub fn from_boot_type(boot_type: &BootType) -> (r: IntelNuc)
        ensures
            r.boot_type == *boot_type,
    {
        IntelNuc { boot_type: *boot_type }
    }

    pub fn get_device_slug(&self) -> (r: &'static str)
        ensures
            r@ == slug_of(DeviceType::IntelNuc),
    {
        device_slug(DeviceType::IntelNuc)
    }

    pub fn get_device_type(&self) -> (r: DeviceType)
        ensures
            r == DeviceType::IntelNuc,
    {
        DeviceType::IntelNuc
    }

    pub fn get_boot_type(&self) -> (r: BootType)
        ensures
            r == self.boot_type,
    {
        self.boot_type
    }
}

/// The ARM board that a device-tree model names, if it is a supported one.
pub open spec fn arm_device(arch: OSArch, model: Seq<char>) -> Option<DeviceType> {
    if arch == OSArch::ARMHF {
        if contains(model, "Raspberry Pi"@) {
            Some(DeviceType::RaspberryPi3)
        } else if contains(model, "BeagleBone"@) || contains(model, "TI AM335x"@) {
            Some(DeviceType::BeagleboneBlack)
        } else {
            None
        }
    } else if arch == OSArch::ARM64 && contains(model, "Raspberry Pi 4"@) {
        Some(DeviceType::RaspberryPi4)
    } else {
        None
    }
}

fn has_text(model: &Vec<char>, p: &str) -> (r: bool)
    ensures
        r == contains(model@, p@),
{
    contains_chars(model, &chars_of(p))
}

/// Classifies an ARM host by its device-tree model.
pub fn classify_arm(arch: OSArch, model: &str) -> (r: Result<DeviceType, MigError>)
    ensures
        match arm_device(arch, model@) {
            Some(d) => r == Ok::<DeviceType, MigError>(d),
            None => r matches Err(e) && e.kind == MigErrorKind::UnsupportedDevice,
        },
{
    let m = chars_of(model);
    if arch == OSArch::ARMHF {
        if has_text(&m, "Raspberry Pi") {
            return Ok(DeviceType::RaspberryPi3);
        }
        if has_text(&m, "BeagleBone") || has_text(&m, "TI AM335x") {
            return Ok(DeviceType::BeagleboneBlack);
        }
    } else if arch == OSArch::ARM64 && has_text(&m, "Raspberry Pi 4") {
        return Ok(DeviceType::RaspberryPi4);
    }
    Err(MigError::from_remark(MigErrorKind::UnsupportedDevice, "the device type is not supported"))
}

} // verus!
