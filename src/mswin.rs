use vstd::prelude::*;
use crate::arch::OSArch;
use crate::device::kind_of;
use crate::error::{MigError, MigErrorKind};
use crate::files::{expect_type, has_signature, FileInfo, FileType};
use crate::linux::{file_outcome, kernel_type, kernel_type_of, MEM_THRESHOLD};
use crate::text::{chars_of, occurs_at};

verus! {

/// What Windows reports of itself.
#[derive(Clone, Debug)]
pub struct WinOsInfo {
    pub os_name: String,
    pub os_arch: OSArch,
    pub os_release: String,
    /// Total memory in bytes.
    pub mem_tot: u64,
}

/// Access to the host's view of itself, as it was queried.
pub struct MSWinApi {
    pub os_info: WinOsInfo,
}

impl MSWinApi {
    pub fn new(os_info: WinOsInfo) -> (r: MSWinApi)
        ensures
            r.os_info == os_info,
    {
        MSWinApi { os_info }
    }

    pub fn get_os_arch(&self) -> (r: OSArch)
        ensures
            r == self.os_info.os_arch,
    {
        self.os_info.os_arch
    }

    pub fn get_os_name(&self) -> (r: &str)
        ensures
            r@ == self.os_info.os_name@,
    {
        self.os_info.os_name.as_str()
    }
}

/// A partition as the management interface lists it.
#[derive(Clone, Debug)]
pub struct WinPartition {
    pub drive_id: String,
    pub index: u64,
    /// Its drive letter with the colon (`C:`), if it has one.
    pub letter: Option<String>,
    /// Whether the firmware boots from it.
    pub is_boot_device: bool,
    /// Whether it holds a FAT file system with an `EFI` directory.
    pub is_efi_fs: bool,
}

/// Where a path lies: the path, its drive and its partition.
#[derive(Clone, Debug)]
pub struct WinPathInfo {
    pub path: String,
    pub drive_id: String,
    pub index: u64,
}

/// The boot, EFI and work locations of a Windows host.
pub struct DriveInfo {
    pub boot_path: WinPathInfo,
    pub efi_path: Option<WinPathInfo>,
    pub work_path: WinPathInfo,
}

/// The root directory of a drive letter (`C:` is rooted at `C:\`).
pub open spec fn letter_root(l: Seq<char>) -> Seq<char> {
    if l.len() > 0 && l.last() == ':' {
        l.push('\\')
    } else {
        l
    }
}

/// `p` starts with `prefix`.
pub open spec fn starts_with(p: Seq<char>, prefix: Seq<char>) -> bool {
    occurs_at(p, prefix, 0)
}

/// The index of the last partition of `ps` from which `pick` accepts one.
pub open spec fn last_index(ps: Seq<WinPartition>, pick: spec_fn(WinPartition) -> bool) -> Option<int>
    decreases ps.len(),
{
    if ps.len() == 0 {
        None
    } else if pick(ps.last()) {
        Some(ps.len() - 1)
    } else {
        last_index(ps.drop_last(), pick)
    }
}

/// The partition whose root is the boot directory.
pub open spec fn is_boot_part(boot_dir: Seq<char>) -> spec_fn(WinPartition) -> bool {
    |p: WinPartition| p.letter matches Some(l) && letter_root(l@) == boot_dir
}

/// The partition whose root the work directory lies under.
pub open spec fn is_work_part(work_dir: Seq<char>) -> spec_fn(WinPartition) -> bool {
    |p: WinPartition| p.letter matches Some(l) && starts_with(work_dir, letter_root(l@))
}

/// The EFI system partition.
pub open spec fn is_efi_part() -> spec_fn(WinPartition) -> bool {
    |p: WinPartition| p.is_boot_device && p.is_efi_fs
}

fn root_of(l: &str) -> (r: String)
    ensures
        r@ == letter_root(l@),
{
    let n = l.unicode_len();
    if n > 0 && l.get_char(n - 1) == ':' {
        let r = String::from_str(l).concat("\\");
        proof {
            reveal_strlit("\\");
        }
        assert(r@ =~= l@.push('\\'));
        r
    } else {
        String::from_str(l)
    }
}

fn has_prefix(p: &str, prefix: &str) -> (r: bool)
    ensures
        r == starts_with(p@, prefix@),
{
    let a = chars_of(p);
    let b = chars_of(prefix);
    if b.len() > a.len() {
        return false;
    }
    let mut i: usize = 0;
    while i < b.len()
        invariant
            a@ == p@,
            b@ == prefix@,
            b@.len() <= a@.len(),
            i <= b@.len(),
            forall|j: int| 0 <= j < i ==> a@[j] == b@[j],
        decreases b.len() - i,
    {
        if a[i] != b[i] {
            assert(p@.subrange(0, prefix@.len() as int)[i as int] != prefix@[i as int]);
            return false;
        }
        i = i + 1;
    }
    assert(p@.subrange(0, prefix@.len() as int) =~= prefix@);
    true
}

/// The boot (0), work (1) or EFI (2) chooser.
pub open spec fn chooser(which: u8, dir: Seq<char>) -> spec_fn(WinPartition) -> bool {
    if which == 0 {
        is_boot_part(dir)
    } else if which == 1 {
        is_work_part(dir)
    } else {
        is_efi_part()
    }
}

/// The last partition that the chooser accepts; `which` selects the boot
/// (0), work (1) or EFI (2) chooser.
fn find_last(ps: &Vec<WinPartition>, which: u8, dir: &str) -> (r: Option<usize>)
    requires
        which < 3,
    ensures
        r matches Some(i) ==> i < ps@.len(),
        match r {
            Some(i) => last_index(ps@, chooser(which, dir@)) == Some(i as int),
            None => last_index(ps@, chooser(which, dir@)) is None,
        },
{
    let ghost pick = chooser(which, dir@);
    let mut k: usize = ps.len();
    assert(ps@.subrange(0, k as int) == ps@);
    while k > 0
        invariant
            k <= ps@.len(),
            which < 3,
            pick == chooser(which, dir@),
            last_index(ps@, pick) == last_index(ps@.subrange(0, k as int), pick),
        decreases k,
    {
        let p = &ps[k - 1];
        let ok = if which == 2 {
            p.is_boot_device && p.is_efi_fs
        } else {
            match &p.letter {
                None => false,
                Some(l) => {
                    let root = root_of(l.as_str());
                    if which == 0 {
                        root == String::from_str(dir)
                    } else {
                        has_prefix(dir, root.as_str())
                    }
                },
            }
        };
        let ghost sub = ps@.subrange(0, k as int);
        assert(sub.last() == ps@[k - 1]);
        assert(sub.drop_last() == ps@.subrange(0, k - 1));
        if ok {
            return Some(k - 1);
        }
        k = k - 1;
    }
    None
}

/// The boot, EFI and work locations, from the volumes that the host
/// reports: exactly one system and one boot volume, the boot directory
/// found on a partition, the work directory too, and, on an EFI host, the
/// EFI system partition.
pub open spec fn drive_outcome(
    efi_boot: bool,
    system_volumes: nat,
    boot_volumes: nat,
    boot_dir: Option<Seq<char>>,
    ps: Seq<WinPartition>,
    work_dir: Seq<char>,
) -> Result<(int, Option<int>, int), MigErrorKind> {
    if system_volumes != 1 || boot_volumes != 1 || boot_dir is None {
        Err(MigErrorKind::InvalidParam)
    } else {
        match (last_index(ps, is_boot_part(boot_dir->0)), last_index(ps, is_work_part(work_dir))) {
            (Some(b), Some(w)) => {
                let e = last_index(ps, is_efi_part());
                if efi_boot && e is None {
                    Err(MigErrorKind::MissingFile)
                } else {
                    Ok((b, if efi_boot { e } else { None }, w))
                }
            },
            _ => Err(MigErrorKind::MissingFile),
        }
    }
}

fn path_info(path: &str, p: &WinPartition) -> (r: WinPathInfo)
    ensures
        r.path@ == path@,
        r.drive_id == p.drive_id,
        r.index == p.index,
{
    WinPathInfo { path: String::from_str(path), drive_id: p.drive_id.clone(), index: p.index }
}

/// Picks the boot, EFI and work locations from the host's partitions.
pub fn select_drives(
    efi_boot: bool,
    system_volumes: usize,
    boot_volumes: usize,
    boot_dir: &Option<String>,
    ps: &Vec<WinPartition>,
    work_dir: &str,
) -> (r: Result<DriveInfo, MigError>)
    ensures
        match drive_outcome(
            efi_boot,
            system_volumes as nat,
            boot_volumes as nat,
            match boot_dir {
                Some(d) => Some(d@),
                None => None,
            },
            ps@,
            work_dir@,
        ) {
            Err(k) => r matches Err(e) && e.kind == k,
            Ok((b, e, w)) => r matches Ok(d) && boot_dir matches Some(bd) && d.boot_path.path@
                == bd@ && d.boot_path.drive_id == ps@[b].drive_id
                && d.boot_path.index == ps@[b].index && d.work_path.drive_id == ps@[w].drive_id
                && d.work_path.index == ps@[w].index && d.work_path.path@ == work_dir@ && (e is None
                <==> d.efi_path is None) && (e matches Some(ei) ==> (d.efi_path matches Some(ep)
                && ep.drive_id == ps@[ei].drive_id && ep.index == ps@[ei].index && ep.path@
                == match ps@[ei].letter {
                    Some(l) => letter_root(l@),
                    None => Seq::<char>::empty(),
                })),
        },
{
    if system_volumes != 1 || boot_volumes != 1 {
        return Err(MigError::from_remark(MigErrorKind::InvalidParam, "unexpected number of system or boot volumes"));
    }
    let dir = match boot_dir {
        Some(d) => d,
        None => {
            return Err(MigError::from_remark(MigErrorKind::InvalidParam, "no mount point for the boot volume"));
        },
    };
    let b = find_last(ps, 0, dir.as_str());
    let w = find_last(ps, 1, work_dir);
    match (b, w) {
        (Some(b), Some(w)) => {
            let e = find_last(ps, 2, "");
            if efi_boot && e.is_none() {
                return Err(MigError::from_remark(MigErrorKind::MissingFile, "the EFI system partition was not found"));
            }
            let efi_path = if efi_boot {
                match e {
                    Some(i) => {
                        let root = match &ps[i].letter {
                            Some(l) => root_of(l.as_str()),
                            None => String::new(),
                        };
                        Some(path_info(root.as_str(), &ps[i]))
                    },
                    None => None,
                }
            } else {
                None
            };
            Ok(DriveInfo {
                boot_path: path_info(dir.as_str(), &ps[b]),
                efi_path,
                work_path: path_info(work_dir, &ps[w]),
            })
        },
        _ => Err(MigError::from_remark(MigErrorKind::MissingFile, "the boot or work directory was not found")),
    }
}

/// What the checks established about a Windows host.
pub struct MigrateInfo {
    pub efi_boot: bool,
    pub os_name: String,
    pub os_arch: OSArch,
    pub os_release: String,
    pub drive_info: DriveInfo,
    pub image_file: FileInfo,
    pub config_file: FileInfo,
    pub kernel_file: FileInfo,
    pub initrd_file: FileInfo,
}

/// The checks on a Windows host in their order: EFI boot without secure
/// boot, an EFI system partition found, then the image (which must fit in memory), config, kernel and
/// initramfs.
pub open spec fn win_outcome(
    efi_boot: Result<bool, MigErrorKind>,
    secure_boot: Result<bool, MigErrorKind>,
    has_efi_path: bool,
    os: WinOsInfo,
    image: Option<FileInfo>,
    config: Option<FileInfo>,
    kernel: Option<FileInfo>,
    initrd: Option<FileInfo>,
) -> Result<(), MigErrorKind> {
    match efi_boot {
        Err(_) => Err(MigErrorKind::Displayed),
        Ok(false) => Err(MigErrorKind::Displayed),
        Ok(true) => match secure_boot {
            Err(k) => Err(k),
            Ok(true) => Err(MigErrorKind::SecureBootEnabled),
            Ok(false) => if !has_efi_path {
                Err(MigErrorKind::MissingFile)
            } else if file_outcome(image, FileType::OSImage) is Err {
                file_outcome(image, FileType::OSImage)
            } else if os.mem_tot < image->0.size + MEM_THRESHOLD {
                Err(MigErrorKind::InsufficientMemory)
            } else if file_outcome(config, FileType::JsonConfig) is Err {
                file_outcome(config, FileType::JsonConfig)
            } else if file_outcome(kernel, kernel_type(os.os_arch)) is Err {
                file_outcome(kernel, kernel_type(os.os_arch))
            } else {
                file_outcome(initrd, FileType::InitRD)
            },
        },
    }
}

fn check_win_file(fi: &Option<FileInfo>, t: FileType) -> (r: Result<(), MigError>)
    ensures
        kind_of(r) == file_outcome(*fi, t),
{
    match fi {
        None => Err(MigError::from_remark(MigErrorKind::MissingFile, "a required file has not been specified or cannot be accessed")),
        Some(i) => if !expect_type(&i.header, t) {
            Err(MigError::from_remark(MigErrorKind::InvalidFileType, "a supplied file is not of the expected type"))
        } else {
            Ok(())
        },
    }
}

impl MigrateInfo {
    /// Checks a Windows host: EFI boot is required, secure boot must be off
    /// and the EFI system partition must have been found; the supplied files must be there, of their kinds, and the image
    /// must fit in memory. `drive_info` is where the drives were found.
    pub fn new(
        efi_boot: Result<bool, MigError>,
        secure_boot: Result<bool, MigError>,
        os_info: WinOsInfo,
        drive_info: DriveInfo,
        image: Option<FileInfo>,
        config: Option<FileInfo>,
        kernel: Option<FileInfo>,
        initrd: Option<FileInfo>,
    ) -> (r: Result<MigrateInfo, MigError>)
        ensures
            match win_outcome(
                kind_of(efi_boot),
                kind_of(secure_boot),
                drive_info.efi_path is Some,
                os_info,
                image,
                config,
                kernel,
                initrd,
            ) {
                Err(k) => r matches Err(e) && e.kind == k,
                Ok(_) => r matches Ok(m) && m.efi_boot && m.os_arch == os_info.os_arch
                    && m.os_name == os_info.os_name && m.os_release == os_info.os_release
                    && m.drive_info == drive_info && m.drive_info.efi_path is Some && image
                    == Some(m.image_file) && config == Some(m.config_file) && kernel == Some(
                    m.kernel_file,
                ) && initrd == Some(m.initrd_file),
            },
    {
        match efi_boot {
            Err(_) => {
                return Err(MigError::displayed());
            },
            Ok(false) => {
                return Err(MigError::displayed());
            },
            Ok(true) => {},
        }
        match secure_boot {
            Err(e) => {
                return Err(e);
            },
            Ok(true) => {
                return Err(MigError::from_remark(MigErrorKind::SecureBootEnabled, "devices in secure boot mode cannot be migrated"));
            },
            Ok(false) => {},
        }
        if drive_info.efi_path.is_none() {
            return Err(MigError::from_remark(MigErrorKind::MissingFile, "the EFI system partition was not found"));
        }
        check_win_file(&image, FileType::OSImage)?;
        let image_size = match &image {
            Some(i) => i.size,
            None => 0,
        };
        if (os_info.mem_tot as u128) < image_size as u128 + MEM_THRESHOLD as u128 {
            return Err(MigError::from_remark(MigErrorKind::InsufficientMemory, "not enough memory to hold the balena OS image"));
        }
        check_win_file(&config, FileType::JsonConfig)?;
        check_win_file(&kernel, kernel_type_of(os_info.os_arch))?;
        check_win_file(&initrd, FileType::InitRD)?;
        match (image, config, kernel, initrd) {
            (Some(image_file), Some(config_file), Some(kernel_file), Some(initrd_file)) => Ok(MigrateInfo {
                efi_boot: true,
                os_name: os_info.os_name,
                os_arch: os_info.os_arch,
                os_release: os_info.os_release,
                drive_info,
                image_file,
                config_file,
                kernel_file,
                initrd_file,
            }),
            _ => Err(MigError::displayed()),
        }
    }
}

} // verus!
