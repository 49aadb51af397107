use vstd::prelude::*;
use crate::error::{MigError, MigErrorKind};

verus! {

/// What stage 2 does when it fails.
#[derive(Clone, Copy, Debug, PartialEq, Eq, Structural)]
pub enum FailMode {
    Reboot,
    Rescue,
    Halt,
}

pub open spec fn fail_mode_text(m: FailMode) -> Seq<char> {
    match m {
        FailMode::Reboot => "Reboot"@,
        FailMode::Rescue => "Rescue"@,
        FailMode::Halt => "Halt"@,
    }
}

impl FailMode {
    /// The mode that applies where none is configured.
    pub fn get_default() -> (r: FailMode)
        ensures
            r == FailMode::Reboot,
    {
        FailMode::Reboot
    }

    pub fn as_str(&self) -> (r: &'static str)
        ensures
            r@ == fail_mode_text(*self),
    {
        match self {
            FailMode::Reboot => "Reboot",
            FailMode::Rescue => "Rescue",
            FailMode::Halt => "Halt",
        }
    }

    /// The mode that `s` names, if any.
    pub fn from_name(s: &str) -> (r: Option<FailMode>)
        ensures
            r matches Some(m) ==> fail_mode_text(m) == s@,
            r is None ==> forall|m: FailMode| fail_mode_text(m) != s@,
    {
        let t = String::from_str(s);
        if t == String::from_str("Reboot") {
            Some(FailMode::Reboot)
        } else if t == String::from_str("Rescue") {
            Some(FailMode::Rescue)
        } else if t == String::from_str("Halt") {
            Some(FailMode::Halt)
        } else {
            None
        }
    }
}

/// Pairs of file names (original, backup) as character sequences.
pub open spec fn pairs_view(b: Seq<(String, String)>) -> Seq<(Seq<char>, Seq<char>)> {
    b.map_values(|p: (String, String)| (p.0@, p.1@))
}

/// The hand-off record that the migration kernel reads after the reboot.
pub struct Stage2Config {
    pub efi_boot: bool,
    pub fail_mode: FailMode,
    pub boot_device: String,
    pub root_device: String,
    pub device_slug: String,
    pub balena_config: String,
    pub balena_image: String,
    pub work_dir: String,
    /// The boot files replaced, with their backups: (original, backup).
    pub bckup_cfg: Vec<(String, String)>,
}

/// The record as plain values.
pub struct Stage2View {
    pub efi_boot: bool,
    pub fail_mode: FailMode,
    pub boot_device: Seq<char>,
    pub root_device: Seq<char>,
    pub device_slug: Seq<char>,
    pub balena_config: Seq<char>,
    pub balena_image: Seq<char>,
    pub work_dir: Seq<char>,
    pub backups: Seq<(Seq<char>, Seq<char>)>,
}

impl View for Stage2Config {
    type V = Stage2View;

    open spec fn view(&self) -> Stage2View {
        Stage2View {
            efi_boot: self.efi_boot,
            fail_mode: self.fail_mode,
            boot_device: self.boot_device@,
            root_device: self.root_device@,
            device_slug: self.device_slug@,
            balena_config: self.balena_config@,
            balena_image: self.balena_image@,
            work_dir: self.work_dir@,
            backups: pairs_view(self.bckup_cfg@),
        }
    }
}

/// The line `key: 'value'`.
pub open spec fn quoted_line(key: Seq<char>, v: Seq<char>) -> Seq<char> {
    key + ": '"@ + v + "'\n"@
}

/// The entries of the backup list, one `orig`/`bckup` pair each.
pub open spec fn backups_text(b: Seq<(Seq<char>, Seq<char>)>) -> Seq<char>
    decreases b.len(),
{
    if b.len() == 0 {
        seq![]
    } else {
        backups_text(b.drop_last()) + "  - orig:      '"@ + b.last().0 + "'\n"@
            + "    bckup:     '"@ + b.last().1 + "'\n"@
    }
}

/// The text of the hand-off record: one `key: value` line per field, then
/// the backup list.
pub open spec fn stage2_text(c: Stage2View) -> Seq<char> {
    "# Balena Migrate Stage2 Config\n"@ + "efi_boot: "@ + (if c.efi_boot {
        "true"@
    } else {
        "false"@
    }) + "\n"@ + quoted_line("device_slug"@, c.device_slug) + quoted_line(
        "fail_mode"@,
        fail_mode_text(c.fail_mode),
    ) + quoted_line("balena_image"@, c.balena_image) + quoted_line(
        "balena_config"@,
        c.balena_config,
    ) + quoted_line("root_device"@, c.root_device) + quoted_line("boot_device"@, c.boot_device)
        + quoted_line("work_dir"@, c.work_dir) + "# backed up files in boot config\n"@
        + "backup_config:\n"@ + backups_text(c.backups)
}

fn push_quoted(out: &mut String, key: &str, v: &str)
    ensures
        final(out)@ == old(out)@ + quoted_line(key@, v@),
{
    let ghost o = out@;
    out.append(key);
    out.append(": '");
    out.append(v);
    out.append("'\n");
    assert(out@ =~= o + quoted_line(key@, v@));
}

/// A backup list entry as the reader finds it: whether it is a map, and
/// its `orig` and `bckup` strings.
pub struct BackupEntry {
    pub is_map: bool,
    pub orig: Option<String>,
    pub bckup: Option<String>,
}

/// What a YAML reader found in a hand-off record: the number of documents
/// and, in the first, the value of each key where it has the expected type.
/// `backups` is `None` where the key is missing and empty where it is no list.
pub struct Stage2Fields {
    pub docs: usize,
    pub efi_boot: Option<bool>,
    pub fail_mode: Option<String>,
    pub device_slug: Option<String>,
    pub balena_image: Option<String>,
    pub balena_config: Option<String>,
    pub root_device: Option<String>,
    pub boot_device: Option<String>,
    pub work_dir: Option<String>,
    pub backups: Option<Vec<BackupEntry>>,
}

/// Whether every map entry of the backup list has both names.
pub open spec fn entries_complete(es: Seq<BackupEntry>) -> bool {
    forall|i: int|
        0 <= i < es.len() && (#[trigger] es[i]).is_map ==> es[i].orig is Some && es[i].bckup is Some
}

/// The (original, backup) pairs of the map entries, in order.
pub open spec fn entry_pairs(es: Seq<BackupEntry>) -> Seq<(Seq<char>, Seq<char>)>
    decreases es.len(),
{
    if es.len() == 0 {
        seq![]
    } else {
        let e = es.last();
        if e.is_map {
            entry_pairs(es.drop_last()).push((e.orig->0@, e.bckup->0@))
        } else {
            entry_pairs(es.drop_last())
        }
    }
}

/// The failure mode a record names; `Reboot` where it names none.
pub open spec fn fail_mode_of(s: Option<String>) -> FailMode {
    match s {
        Some(t) => if t@ == fail_mode_text(FailMode::Rescue) {
            FailMode::Rescue
        } else if t@ == fail_mode_text(FailMode::Halt) {
            FailMode::Halt
        } else {
            FailMode::Reboot
        },
        None => FailMode::Reboot,
    }
}

/// Whether the fields make a whole record: one document, and every
/// required value present.
pub open spec fn fields_complete(f: Stage2Fields) -> bool {
    &&& f.docs == 1
    &&& f.backups is Some
    &&& entries_complete(f.backups->0@)
    &&& f.efi_boot is Some
    &&& f.device_slug is Some
    &&& f.balena_image is Some
    &&& f.balena_config is Some
    &&& f.root_device is Some
    &&& f.boot_device is Some
    &&& f.work_dir is Some
}

impl Stage2Config {
    /// The text of the record, as the writer stores it.
    pub fn to_text(&self) -> (r: String)
        ensures
            r@ == stage2_text(self@),
    {
        let mut out = String::from_str("# Balena Migrate Stage2 Config\n");
        out.append("efi_boot: ");
        out.append(if self.efi_boot { "true" } else { "false" });
        out.append("\n");
        push_quoted(&mut out, "device_slug", self.device_slug.as_str());
        push_quoted(&mut out, "fail_mode", self.fail_mode.as_str());
        push_quoted(&mut out, "balena_image", self.balena_image.as_str());
        push_quoted(&mut out, "balena_config", self.balena_config.as_str());
        push_quoted(&mut out, "root_device", self.root_device.as_str());
        push_quoted(&mut out, "boot_device", self.boot_device.as_str());
        push_quoted(&mut out, "work_dir", self.work_dir.as_str());
        out.append("# backed up files in boot config\n");
        out.append("backup_config:\n");
        let ghost head = out@;
        let mut i: usize = 0;
        while i < self.bckup_cfg.len()
            invariant
                i <= self.bckup_cfg@.len(),
                out@ == head + backups_text(pairs_view(self.bckup_cfg@).subrange(0, i as int)),
            decreases self.bckup_cfg.len() - i,
        {
            let ghost before = out@;
            let pair = &self.bckup_cfg[i];
            out.append("  - orig:      '");
            out.append(pair.0.as_str());
            out.append("'\n");
            out.append("    bckup:     '");
            out.append(pair.1.as_str());
            out.append("'\n");
            proof {
                let p = pairs_view(self.bckup_cfg@);
                assert(p.subrange(0, i + 1).drop_last() == p.subrange(0, i as int));
                assert(out@ =~= head + backups_text(p.subrange(0, i + 1)));
            }
            i = i + 1;
        }
        assert(pairs_view(self.bckup_cfg@).subrange(0, self.bckup_cfg@.len() as int)
            == pairs_view(self.bckup_cfg@));
        assert(out@ =~= stage2_text(self@));
        out
    }

    /// The record that the fields read from a stored text describe; a
    /// missing document or value is an `InvalidParam` error. Entries of the
    /// backup list that are no maps are skipped; an unknown or missing
    /// failure mode is `Reboot`.
    pub fn from_fields(f: Stage2Fields) -> (r: Result<Stage2Config, MigError>)
        ensures
            !fields_complete(f) ==> (r matches Err(e) && e.kind == MigErrorKind::InvalidParam),
            fields_complete(f) ==> (r matches Ok(c) && c@ == (Stage2View {
                efi_boot: f.efi_boot->0,
                fail_mode: fail_mode_of(f.fail_mode),
                boot_device: f.boot_device->0@,
                root_device: f.root_device->0@,
                device_slug: f.device_slug->0@,
                balena_config: f.balena_config->0@,
                balena_image: f.balena_image->0@,
                work_dir: f.work_dir->0@,
                backups: entry_pairs(f.backups->0@),
            })),
    {
        if f.docs != 1 {
            return Err(MigError::from_remark(MigErrorKind::InvalidParam, "invalid number of configs in file"));
        }
        let Stage2Fields {
            docs,
            efi_boot,
            fail_mode,
            device_slug,
            balena_image,
            balena_config,
            root_device,
            boot_device,
            work_dir,
            backups,
        } = f;
        let entries = match backups {
            Some(es) => es,
            None => {
                return Err(MigError::from_remark(MigErrorKind::InvalidParam, "the backup list is missing"));
            },
        };
        assert(entries@ == f.backups->0@);
        let mut bckup_cfg: Vec<(String, String)> = Vec::new();
        let mut i: usize = 0;
        while i < entries.len()
            invariant
                entries@ == f.backups->0@,
                i <= entries@.len(),
                forall|j: int|
                    0 <= j < i && (#[trigger] entries@[j]).is_map ==> entries@[j].orig is Some
                        && entries@[j].bckup is Some,
                pairs_view(bckup_cfg@) == entry_pairs(entries@.subrange(0, i as int)),
            decreases entries.len() - i,
        {
            let e = &entries[i];
            proof {
                assert(entries@.subrange(0, i + 1).drop_last() == entries@.subrange(0, i as int));
                assert(entries@.subrange(0, i + 1).last() == entries@[i as int]);
            }
            if e.is_map {
                match (&e.orig, &e.bckup) {
                    (Some(o), Some(b)) => {
                        let ghost before = bckup_cfg@;
                        bckup_cfg.push((o.clone(), b.clone()));
                        assert(pairs_view(bckup_cfg@) =~= pairs_view(before).push((o@, b@)));
                    },
                    _ => {
                        return Err(MigError::from_remark(MigErrorKind::InvalidParam, "a backup entry is incomplete"));
                    },
                }
            }
            i = i + 1;
        }
        assert(entries@.subrange(0, entries@.len() as int) == entries@);
        let mode = match &fail_mode {
            Some(s) => match FailMode::from_name(s.as_str()) {
                Some(m) => m,
                None => FailMode::get_default(),
            },
            None => FailMode::get_default(),
        };
        proof {
            reveal_strlit("Reboot");
            reveal_strlit("Rescue");
            reveal_strlit("Halt");
            assert("Reboot"@[2] != "Rescue"@[2]);
            assert("Reboot"@.len() != "Halt"@.len());
            assert("Rescue"@.len() != "Halt"@.len());
        }
        match (efi_boot, device_slug, balena_image, balena_config, root_device, boot_device, work_dir) {
            (Some(efi_boot), Some(device_slug), Some(balena_image), Some(balena_config), Some(root_device), Some(boot_device), Some(work_dir)) => {
                Ok(Stage2Config {
                    efi_boot,
                    fail_mode: mode,
                    boot_device,
                    root_device,
                    device_slug,
                    balena_config,
                    balena_image,
                    work_dir,
                    bckup_cfg,
                })
            },
            _ => Err(MigError::from_remark(MigErrorKind::InvalidParam, "a required value is missing")),
        }
    }

    pub fn is_efi_boot(&self) -> (r: bool)
        ensures
            r == self.efi_boot,
    {
        self.efi_boot
    }

    pub fn get_root_device(&self) -> (r: &str)
        ensures
            r@ == self.root_device@,
    {
        self.root_device.as_str()
    }

    pub fn get_boot_device(&self) -> (r: &str)
        ensures
            r@ == self.boot_device@,
    {
        self.boot_device.as_str()
    }

    pub fn get_device_slug(&self) -> (r: &str)
        ensures
            r@ == self.device_slug@,
    {
        self.device_slug.as_str()
    }

    pub fn get_balena_image(&self) -> (r: &str)
        ensures
            r@ == self.balena_image@,
    {
        self.balena_image.as_str()
    }

    pub fn get_balena_config(&self) -> (r: &str)
        ensures
            r@ == self.balena_config@,
    {
        self.balena_config.as_str()
    }

    pub fn get_backups(&self) -> (r: &Vec<(String, String)>)
        ensures
            pairs_view(r@) == self@.backups,
    {
        &self.bckup_cfg
    }

    pub fn get_work_path(&self) -> (r: &str)
        ensures
            r@ == self.work_dir@,
    {
        self.work_dir.as_str()
    }

    pub fn get_fail_mode(&self) -> (r: &FailMode)
        ensures
            *r == self.fail_mode,
    {
        &self.fail_mode
    }
}

} // verus!
