use vstd::prelude::*;
use crate::boot::BootType;
use crate::disk::PartitionInfo;
use crate::error::{MigError, MigErrorKind};
use crate::restore::{apply_install, apply_steps, edits_reversible, lemma_restore_undoes_install, restore_plan};
use crate::stage2::pairs_view;
use crate::pattern::{
    lemma_occ_prefix, lemma_occ_split, token_at,
    lemma_strip_keeps_absent, lemma_strip_keeps_tokens, lemma_strip_removes, no_occ, plain_key,
    tok_start, tokens_only,
    key_at_start, line_starts_with_key, replace_all, replace_all_tokens,
};
use crate::text::{
    decimal, decimal_str, chars_of, lemma_trim_end_last, contains, contains_chars, is_ws, occurs_at, join_lines, lines_of, split_lines, trim_end,
    trim_end_str,
};

verus! {

/// The first line of a `config.txt` written by this engine.
pub const BALENA_FILE_TAG: &'static str = "## created by balena-migrate";

/// The device-tree blobs that a variant installs.
pub open spec fn dtb_names(t: BootType) -> Seq<Seq<char>> {
    if t == BootType::Raspi64 {
        seq!["bcm2711-rpi-4-b.dtb"@]
    } else {
        seq!["bcm2710-rpi-3-b.dtb"@, "bcm2710-rpi-3-b-plus.dtb"@]
    }
}

/// The boot manager of the Raspberry Pi variants.
pub struct RaspiBootManager {
    /// The `/boot` partition, known once `can_migrate` has found it.
    pub bootmgr_path: Option<PartitionInfo>,
    pub boot_type: BootType,
    pub dtb_files: Vec<&'static str>,
}

impl RaspiBootManager {
    /// A manager of the given variant is well formed: it installs that
    /// variant's blobs.
    pub open spec fn wf(&self) -> bool {
        &&& (self.boot_type == BootType::Raspi || self.boot_type == BootType::Raspi64)
        &&& self.dtb_files@.len() == dtb_names(self.boot_type).len()
        &&& forall|i: int|
            0 <= i < self.dtb_files@.len() ==> #[trigger] self.dtb_files@[i]@ == dtb_names(
                self.boot_type,
            )[i]
    }

    pub fn new(boot_type: BootType) -> (r: Result<RaspiBootManager, MigError>)
        ensures
            (boot_type == BootType::Raspi || boot_type == BootType::Raspi64) ==> (r matches Ok(m)
                && m.wf() && m.boot_type == boot_type && m.bootmgr_path is None),
            !(boot_type == BootType::Raspi || boot_type == BootType::Raspi64) ==> (r matches Err(e)
                && e.kind == MigErrorKind::Displayed),
    {
        match boot_type {
            BootType::Raspi => Ok(RaspiBootManager {
                bootmgr_path: None,
                boot_type,
                dtb_files: vec!["bcm2710-rpi-3-b.dtb", "bcm2710-rpi-3-b-plus.dtb"],
            }),
            BootType::Raspi64 => Ok(RaspiBootManager {
                bootmgr_path: None,
                boot_type,
                dtb_files: vec!["bcm2711-rpi-4-b.dtb"],
            }),
            _ => Err(MigError::displayed()),
        }
    }

    pub fn get_boot_type(&self) -> (r: BootType)
        ensures
            r == self.boot_type,
    {
        self.boot_type
    }

    /// Whether the migration can proceed: `/boot` must exist and be
    /// resolved to a partition, and every blob must be in the work
    /// directory (whose file names are `work_files`). Touches nothing but
    /// the manager's record of the `/boot` partition.
    pub fn can_migrate(
        &mut self,
        boot_dir_exists: bool,
        boot_path: Option<PartitionInfo>,
        work_files: &Vec<String>,
    ) -> (r: Result<bool, MigError>)
        requires
            old(self).wf(),
        ensures
            final(self).wf(),
            final(self).boot_type == old(self).boot_type,
            !boot_dir_exists ==> r == Ok::<bool, MigError>(false) && final(self).bootmgr_path
                == old(self).bootmgr_path,
            boot_dir_exists && boot_path is None ==> (r matches Err(e) && e.kind
                == MigErrorKind::Displayed),
            boot_dir_exists && boot_path is Some ==> final(self).bootmgr_path == boot_path && r
                == Ok::<bool, MigError>(dtbs_present(work_files@, old(self).boot_type)),
    {
        if !boot_dir_exists {
            return Ok(false);
        }
        if boot_path.is_none() {
            return Err(MigError::displayed());
        }
        self.bootmgr_path = boot_path;
        let mut i: usize = 0;
        while i < self.dtb_files.len()
            invariant
                self.wf(),
                self.boot_type == old(self).boot_type,
                boot_dir_exists,
                boot_path is Some,
                self.bootmgr_path == boot_path,
                i <= self.dtb_files@.len(),
                forall|j: int|
                    0 <= j < i ==> #[trigger] has_name(work_files@, dtb_names(self.boot_type)[j]),
            decreases self.dtb_files.len() - i,
        {
            if !find_name(work_files, self.dtb_files[i]) {
                assert(!has_name(work_files@, dtb_names(self.boot_type)[i as int]));
                return Ok(false);
            }
            i = i + 1;
        }
        Ok(true)
    }

    /// The backups that `setup` records, in the order it makes them: each
    /// blob that `/boot` already holds (named in `boot_files`), then
    /// `config.txt` and `cmdline.txt` unless `config.txt` was written by
    /// this engine. `secs` is the time of the run in seconds since the epoch.
    pub fn setup_backups(&self, boot_files: &Vec<String>, balena_config: bool, secs: u64) -> (r:
        Vec<(String, String)>)
        requires
            self.wf(),
        ensures
            pairs_view(r@) == setup_backup_plan(
                dtb_names(self.boot_type),
                boot_files@,
                balena_config,
                secs as nat,
            ),
    {
        let stamp = decimal_str(secs);
        let mut r: Vec<(String, String)> = Vec::new();
        let mut i: usize = 0;
        while i < self.dtb_files.len()
            invariant
                self.wf(),
                stamp@ == decimal(secs as nat),
                i <= self.dtb_files@.len(),
                pairs_view(r@) == dtb_backups(
                    dtb_names(self.boot_type).subrange(0, i as int),
                    boot_files@,
                    secs as nat,
                ),
            decreases self.dtb_files.len() - i,
        {
            let name = self.dtb_files[i];
            let ghost before = r@;
            proof {
                let names = dtb_names(self.boot_type);
                assert(names.subrange(0, i + 1).drop_last() == names.subrange(0, i as int));
                assert(names.subrange(0, i + 1).last() == name@);
            }
            if find_name(boot_files, name) {
                let bckup = String::from_str(name).concat("-").concat(stamp.as_str());
                proof {
                    reveal_strlit("-");
                }
                r.push((String::from_str(name), bckup));
                assert(pairs_view(r@) == pairs_view(before).push((name@, name@ + "-"@ + decimal(secs as nat)))) by {
                    assert(r@.drop_last() == before);
                }
            }
            i = i + 1;
        }
        assert(dtb_names(self.boot_type).subrange(0, self.dtb_files@.len() as int) == dtb_names(
            self.boot_type,
        ));
        if !balena_config {
            let ghost before = r@;
            r.push((String::from_str("config.txt"), String::from_str("config.txt.").concat(stamp.as_str())));
            r.push((String::from_str("cmdline.txt"), String::from_str("cmdline.txt.").concat(stamp.as_str())));
            assert(pairs_view(r@) == pairs_view(before) + config_backups(secs as nat)) by {
                assert(r@.drop_last().drop_last() == before);
                assert(r@.drop_last() == before.push(r@[before.len() as int]));
            }
        }
        r
    }
}

/// Whether every blob of variant `t` is among `files`.
pub open spec fn dtbs_present(files: Seq<String>, t: BootType) -> bool {
    forall|i: int| 0 <= i < dtb_names(t).len() ==> #[trigger] has_name(files, dtb_names(t)[i])
}

/// Whether `names` holds `n`.
pub open spec fn has_name(names: Seq<String>, n: Seq<char>) -> bool {
    exists|j: int| 0 <= j < names.len() && (#[trigger] names[j])@ == n
}

pub fn find_name(names: &Vec<String>, n: &str) -> (r: bool)
    ensures
        r == has_name(names@, n@),
{
    let target = String::from_str(n);
    let mut j: usize = 0;
    while j < names.len()
        invariant
            target@ == n@,
            j <= names@.len(),
            forall|k: int| 0 <= k < j ==> (#[trigger] names@[k])@ != n@,
        decreases names.len() - j,
    {
        if names[j] == target {
            assert(names@[j as int]@ == n@);
            return true;
        }
        j = j + 1;
    }
    false
}

/// The backups of the blobs among `names` that `/boot` holds: `name-<secs>`.
pub open spec fn dtb_backups(names: Seq<Seq<char>>, boot_files: Seq<String>, secs: nat) -> Seq<
    (Seq<char>, Seq<char>),
>
    decreases names.len(),
{
    if names.len() == 0 {
        seq![]
    } else {
        let rest = dtb_backups(names.drop_last(), boot_files, secs);
        let n = names.last();
        if has_name(boot_files, n) {
            rest.push((n, n + "-"@ + decimal(secs)))
        } else {
            rest
        }
    }
}

/// The backups of `config.txt` and `cmdline.txt`: `<name>.<secs>`.
pub open spec fn config_backups(secs: nat) -> Seq<(Seq<char>, Seq<char>)> {
    seq![
        ("config.txt"@, "config.txt."@ + decimal(secs)),
        ("cmdline.txt"@, "cmdline.txt."@ + decimal(secs)),
    ]
}

pub open spec fn setup_backup_plan(
    names: Seq<Seq<char>>,
    boot_files: Seq<String>,
    balena_config: bool,
    secs: nat,
) -> Seq<(Seq<char>, Seq<char>)> {
    dtb_backups(names, boot_files, secs) + if balena_config {
        seq![]
    } else {
        config_backups(secs)
    }
}

proof fn lemma_decimal_nonempty(n: nat)
    ensures
        decimal(n).len() >= 1,
    decreases n,
{
    if n >= 10 {
        lemma_decimal_nonempty(n / 10);
    }
}

/// The backups that `setup` records can be undone: no two share a name and
/// none of them is one of the files replaced. (With backup names that do
/// not exist yet, the restore law then applies to every run.)
pub proof fn lemma_setup_backups_distinct(
    t: BootType,
    boot_files: Seq<String>,
    balena_config: bool,
    secs: nat,
)
    ensures
        ({
            let e = setup_backup_plan(dtb_names(t), boot_files, balena_config, secs);
            &&& forall|i: int, j: int|
                0 <= i < j < e.len() ==> #[trigger] e[i].1 != #[trigger] e[j].1
            &&& forall|i: int, j: int|
                0 <= i < e.len() && 0 <= j < e.len() ==> #[trigger] e[i].1 != #[trigger] e[j].0
        }),
{
    reveal_strlit("bcm2710-rpi-3-b.dtb");
    reveal_strlit("bcm2710-rpi-3-b-plus.dtb");
    reveal_strlit("bcm2711-rpi-4-b.dtb");
    reveal_strlit("config.txt");
    reveal_strlit("cmdline.txt");
    reveal_strlit("config.txt.");
    reveal_strlit("cmdline.txt.");
    reveal_strlit("-");
    let d = decimal(secs);
    lemma_decimal_nonempty(secs);
    let a = "bcm2710-rpi-3-b.dtb"@;
    let b = "bcm2710-rpi-3-b-plus.dtb"@;
    let p = "bcm2711-rpi-4-b.dtb"@;
    let c = "config.txt"@;
    let m = "cmdline.txt"@;
    let ba = a + "-"@ + d;
    let bb = b + "-"@ + d;
    let bp = p + "-"@ + d;
    let bc = "config.txt."@ + d;
    let bm = "cmdline.txt."@ + d;
    assert(ba[15] == '.' && bb[15] == '-' && bp[0] == 'b' && ba[0] == 'b' && bb[0] == 'b');
    assert(bc[0] == 'c' && bc[1] == 'o' && bm[0] == 'c' && bm[1] == 'm');
    assert(a[15] == '.' && b[15] == '-' && c[0] == 'c' && c[1] == 'o' && m[1] == 'm');
    assert(ba.len() > a.len() && bb.len() > b.len() && bp.len() > p.len());
    assert(bc.len() > c.len() && bm.len() > m.len());
    assert(ba != bb && ba != b && bb != a);
    assert(ba != bc && ba != bm && bb != bc && bb != bm && bp != bc && bp != bm);
    assert(ba != c && ba != m && bb != c && bb != m && bp != c && bp != m);
    assert(bc != a && bc != b && bc != p && bm != a && bm != b && bm != p);
    assert(bc != bm && bc != m && bm != c && bc != c && bm != m);
    assert(ba != a && bb != b && bp != p);
    let names = dtb_names(t);
    let dtbs = dtb_backups(names, boot_files, secs);
    let cfg: Seq<(Seq<char>, Seq<char>)> = if balena_config {
        seq![]
    } else {
        config_backups(secs)
    };
    let none = dtb_backups(Seq::<Seq<char>>::empty(), boot_files, secs);
    assert(none == Seq::<(Seq<char>, Seq<char>)>::empty());
    if t == BootType::Raspi64 {
        assert(names.drop_last() == Seq::<Seq<char>>::empty());
        assert(names.last() == p);
        assert(dtbs =~= (if has_name(boot_files, p) {
            seq![(p, bp)]
        } else {
            seq![]
        }));
    } else {
        let first = names.drop_last();
        assert(first == seq![a]);
        assert(first.drop_last() == Seq::<Seq<char>>::empty());
        assert(first.last() == a);
        assert(names.last() == b);
        let d1 = dtb_backups(first, boot_files, secs);
        assert(d1 =~= (if has_name(boot_files, a) {
            seq![(a, ba)]
        } else {
            seq![]
        }));
        assert(dtbs == (if has_name(boot_files, b) {
            d1.push((b, bb))
        } else {
            d1
        }));
    }
    let e = dtbs + cfg;
    assert(e == setup_backup_plan(names, boot_files, balena_config, secs));
    assert forall|i: int, j: int| 0 <= i < j < e.len() implies #[trigger] e[i].1 != #[trigger] e[j].1 by {
    }
    assert forall|i: int, j: int| 0 <= i < e.len() && 0 <= j < e.len() implies #[trigger] e[i].1
        != #[trigger] e[j].0 by {
    }
}

/// Every run of `setup` can be undone: where the replaced files exist and
/// the backup names are still free, replaying the recorded backups, last
/// first, gives back the file system as it was, whatever was written over
/// the replaced files.
pub proof fn lemma_setup_restorable(
    t: BootType,
    boot_files: Seq<String>,
    balena_config: bool,
    secs: nat,
    fs: Map<Seq<char>, Seq<u8>>,
    news: Seq<Seq<u8>>,
)
    requires
        forall|i: int|
            0 <= i < setup_backup_plan(dtb_names(t), boot_files, balena_config, secs).len() ==> {
                let e = #[trigger] setup_backup_plan(dtb_names(t), boot_files, balena_config, secs)[i];
                fs.contains_key(e.0) && !fs.contains_key(e.1)
            },
    ensures
        ({
            let plan = setup_backup_plan(dtb_names(t), boot_files, balena_config, secs);
            apply_steps(apply_install(fs, plan, news), restore_plan(plan)) == fs
        }),
{
    let plan = setup_backup_plan(dtb_names(t), boot_files, balena_config, secs);
    lemma_setup_backups_distinct(t, boot_files, balena_config, secs);
    assert(edits_reversible(fs, plan));
    lemma_restore_undoes_install(fs, plan, news);
}

/// Whether `line` is one that the rewrite of `config.txt` comments out.
pub open spec fn is_replaced_line(line: Seq<char>, t: BootType) -> bool {
    key_at_start(line, "initramfs"@) || key_at_start(line, "kernel"@) || key_at_start(
        line,
        "enable_uart"@,
    ) || (t == BootType::Raspi64 && key_at_start(line, "arm_64bit"@))
}

pub open spec fn rewrite_line(line: Seq<char>, t: BootType) -> Seq<char> {
    if is_replaced_line(line, t) {
        "# "@ + line
    } else {
        line
    }
}

/// Whether `text` already carries the marker line of a rewritten `config.txt`.
pub open spec fn is_balena_config(text: Seq<char>) -> bool {
    lines_of(text).contains(BALENA_FILE_TAG@)
}

/// The lines that the migration boot takes from `config.txt`.
pub open spec fn boot_lines(t: BootType) -> Seq<Seq<char>> {
    (if t == BootType::Raspi64 {
        seq!["arm_64bit=1"@]
    } else {
        seq![]
    }) + seq![
        "enable_uart=1"@,
        "initramfs balena.initramfs.cpio.gz followkernel"@,
        "kernel balena.zImage"@,
    ]
}

/// The lines of the rewritten `config.txt`: the marker (unless `text` has
/// one already), every line of `text` with the boot lines commented out,
/// then the lines that boot the migration kernel.
pub open spec fn config_lines(text: Seq<char>, t: BootType) -> Seq<Seq<char>> {
    (if is_balena_config(text) {
        seq![]
    } else {
        seq![BALENA_FILE_TAG@]
    }) + lines_of(text).map_values(|l: Seq<char>| rewrite_line(l, t)) + boot_lines(t)
}

pub open spec fn config_txt(text: Seq<char>, t: BootType) -> Seq<char> {
    join_lines(config_lines(text, t))
}

proof fn lemma_join_push(ls: Seq<Seq<char>>, l: Seq<char>)
    ensures
        join_lines(ls.push(l)) == join_lines(ls) + l + seq!['\n'],
{
    assert(ls.push(l).drop_last() == ls);
}

/// Appends `l` and a newline to `out`, which holds the lines `ls`.
fn push_line(out: &mut String, l: &str, Ghost(ls): Ghost<Seq<Seq<char>>>)
    requires
        old(out)@ == join_lines(ls),
    ensures
        final(out)@ == join_lines(ls.push(l@)),
{
    proof {
        lemma_join_push(ls, l@);
        reveal_strlit("\n");
    }
    out.append(l);
    out.append("\n");
}

/// Whether `text` holds the marker line.
pub fn has_balena_tag(text: &str) -> (r: bool)
    ensures
        r == is_balena_config(text@),
{
    let lines = split_lines(text);
    let tag = String::from_str(BALENA_FILE_TAG);
    let mut i: usize = 0;
    while i < lines.len()
        invariant
            lines@.len() == lines_of(text@).len(),
            forall|j: int| 0 <= j < lines@.len() ==> #[trigger] lines@[j]@ == lines_of(text@)[j],
            tag@ == BALENA_FILE_TAG@,
            forall|j: int| 0 <= j < i ==> lines_of(text@)[j] != BALENA_FILE_TAG@,
        decreases lines.len() - i,
    {
        if lines[i] == tag {
            assert(lines_of(text@)[i as int] == BALENA_FILE_TAG@);
            return true;
        }
        i = i + 1;
    }
    false
}

fn is_replaced(line: &str, t: BootType) -> (r: bool)
    ensures
        r == is_replaced_line(line@, t),
{
    proof {
        reveal_strlit("initramfs");
        reveal_strlit("kernel");
        reveal_strlit("enable_uart");
        reveal_strlit("arm_64bit");
    }
    line_starts_with_key(line, "initramfs") || line_starts_with_key(line, "kernel")
        || line_starts_with_key(line, "enable_uart") || (t == BootType::Raspi64
        && line_starts_with_key(line, "arm_64bit"))
}

/// The rewritten `config.txt`, from its current text.
pub fn config_txt_contents(text: &str, t: BootType) -> (r: String)
    ensures
        r@ == config_txt(text@, t),
{
    let marked = has_balena_tag(text);
    let lines = split_lines(text);
    let ghost src = lines_of(text@);
    let ghost head: Seq<Seq<char>> = if marked {
        seq![]
    } else {
        seq![BALENA_FILE_TAG@]
    };
    let mut out = String::new();
    if !marked {
        push_line(&mut out, BALENA_FILE_TAG, Ghost(Seq::empty()));
        assert(seq![].push(BALENA_FILE_TAG@) == head);
    }
    let mut i: usize = 0;
    while i < lines.len()
        invariant
            lines@.len() == src.len(),
            forall|j: int| 0 <= j < lines@.len() ==> #[trigger] lines@[j]@ == src[j],
            i <= lines@.len(),
            out@ == join_lines(
                head + src.subrange(0, i as int).map_values(|l: Seq<char>| rewrite_line(l, t)),
            ),
        decreases lines.len() - i,
    {
        let ghost done = head + src.subrange(0, i as int).map_values(
            |l: Seq<char>| rewrite_line(l, t),
        );
        let line = lines[i].as_str();
        if is_replaced(line, t) {
            proof {
                reveal_strlit("# ");
            }
            out.append("# ");
        }
        proof {
            lemma_join_push(done, rewrite_line(line@, t));
            assert(done.push(rewrite_line(line@, t)) == head + src.subrange(0, i + 1).map_values(
                |l: Seq<char>| rewrite_line(l, t),
            ));
            reveal_strlit("\n");
        }
        out.append(line);
        out.append("\n");
        i = i + 1;
    }
    let ghost body = head + src.map_values(|l: Seq<char>| rewrite_line(l, t));
    assert(src.subrange(0, src.len() as int) == src);
    if t == BootType::Raspi64 {
        push_line(&mut out, "arm_64bit=1", Ghost(body));
    }
    let ghost with_arm = body + if t == BootType::Raspi64 {
        seq!["arm_64bit=1"@]
    } else {
        seq![]
    };
    assert(t == BootType::Raspi64 ==> body.push("arm_64bit=1"@) == with_arm);
    assert(t != BootType::Raspi64 ==> body == with_arm);
    push_line(&mut out, "enable_uart=1", Ghost(with_arm));
    push_line(
        &mut out,
        "initramfs balena.initramfs.cpio.gz followkernel",
        Ghost(with_arm.push("enable_uart=1"@)),
    );
    push_line(
        &mut out,
        "kernel balena.zImage",
        Ghost(with_arm.push("enable_uart=1"@).push("initramfs balena.initramfs.cpio.gz followkernel"@)),
    );
    assert(with_arm.push("enable_uart=1"@).push(
        "initramfs balena.initramfs.cpio.gz followkernel"@,
    ).push("kernel balena.zImage"@) == config_lines(text@, t));
    out
}

/// `s` without its `root=`, `rootfstype=` and `console=` tokens: each
/// token (with the white space after it) becomes one space.
pub open spec fn strip_boot_tokens(s: Seq<char>) -> Seq<char> {
    replace_all(
        replace_all(replace_all(s, "root="@, seq![' ']), "rootfstype="@, seq![' ']),
        "console="@,
        seq![' '],
    )
}

/// The consoles that the migration kernel logs to.
pub open spec fn console_tokens() -> Seq<char> {
    " console=tty1 console=serial0,115200"@
}

/// The tokens that boot the migration kernel.
pub open spec fn boot_tokens(root_dev: Seq<char>, fs_type: Seq<char>) -> Seq<char> {
    " root="@ + root_dev + " rootfstype="@ + fs_type + console_tokens()
}

/// The rewritten kernel command line: every old root device, root file
/// system type and console removed, the migration root device, file system
/// type and consoles appended, then the extra options without their
/// trailing white space, and one newline at the end.
pub open spec fn cmdline_txt(
    text: Seq<char>,
    root_dev: Seq<char>,
    fs_type: Seq<char>,
    opts: Seq<char>,
) -> Seq<char> {
    let o = trim_end(opts);
    strip_boot_tokens(trim_end(text)) + boot_tokens(root_dev, fs_type) + (if o.len() == 0 {
        Seq::<char>::empty()
    } else {
        " "@ + o
    }) + "\n"@
}

/// The rewritten `cmdline.txt`, from its current text.
pub fn cmdline_txt_contents(text: &str, root_dev: &str, fs_type: &str, kernel_opts: &str) -> (r:
    String)
    ensures
        r@ == cmdline_txt(text@, root_dev@, fs_type@, kernel_opts@),
{
    proof {
        reveal_strlit("root=");
        reveal_strlit("rootfstype=");
        reveal_strlit("console=");
        reveal_strlit(" ");
        assert(" "@ =~= seq![' ']);
    }
    let trimmed = trim_end_str(text);
    let c1 = replace_all_tokens(trimmed.as_str(), "root=", " ");
    let c2 = replace_all_tokens(c1.as_str(), "rootfstype=", " ");
    let mut c3 = replace_all_tokens(c2.as_str(), "console=", " ");
    let ghost stripped = c3@;
    assert(stripped == strip_boot_tokens(trim_end(text@)));
    c3.append(" root=");
    c3.append(root_dev);
    c3.append(" rootfstype=");
    c3.append(fs_type);
    c3.append(" console=tty1 console=serial0,115200");
    assert(c3@ =~= stripped + boot_tokens(root_dev@, fs_type@));
    let ghost with_boot = c3@;
    let opts = trim_end_str(kernel_opts);
    let ghost tail: Seq<char> = if opts@.len() == 0 {
        Seq::<char>::empty()
    } else {
        " "@ + opts@
    };
    if opts.as_str().unicode_len() > 0 {
        c3.append(" ");
        c3.append(opts.as_str());
    }
    assert(c3@ =~= with_boot + tail);
    c3.append("\n");
    assert(c3@ =~= stripped + boot_tokens(root_dev@, fs_type@) + tail + "\n"@);
    c3
}

/// Every generated `cmdline.txt` sets both migration consoles, ends with
/// the extra options (without trailing white space) where there are any,
/// and ends with exactly one newline.
pub proof fn lemma_cmdline_shape(text: Seq<char>, root_dev: Seq<char>, fs_type: Seq<char>, opts: Seq<char>)
    ensures
        ({
            let c = cmdline_txt(text, root_dev, fs_type, opts);
            &&& c.len() >= 2
            &&& c.last() == '\n'
            &&& c[c.len() - 2] != '\n'
            &&& contains(c, "console=tty1"@)
            &&& contains(c, "console=serial0,115200"@)
            &&& trim_end(opts).len() > 0 ==> c.subrange(
                c.len() - 1 - trim_end(opts).len(),
                c.len() - 1,
            ) == trim_end(opts)
        }),
{
    reveal_strlit(" console=tty1 console=serial0,115200");
    reveal_strlit("console=tty1");
    reveal_strlit("console=serial0,115200");
    reveal_strlit("\n");
    reveal_strlit(" ");
    let b = strip_boot_tokens(trim_end(text)) + boot_tokens(root_dev, fs_type);
    let o = trim_end(opts);
    lemma_trim_end_last(opts);
    let body = if o.len() == 0 {
        b
    } else {
        b + " "@ + o
    };
    let c = body + "\n"@;
    let at0: int = b.len() - 35;
    let at: int = at0 + 13;
    assert(c =~= cmdline_txt(text, root_dev, fs_type, opts));
    assert(b.last() == '0');
    assert(body.last() != '\n');
    assert(c[c.len() - 2] == body.last());
    assert(c.subrange(at0, at0 + 12) =~= "console=tty1"@);
    assert(crate::text::occurs_at(c, "console=tty1"@, at0));
    assert(c.subrange(at, at + 22) =~= "console=serial0,115200"@);
    assert(crate::text::occurs_at(c, "console=serial0,115200"@, at));
    if o.len() > 0 {
        assert(c.subrange(c.len() - 1 - o.len(), c.len() - 1) =~= o);
    }
}

/// A single word: non-empty, with neither white space nor `=`.
pub open spec fn word(w: Seq<char>) -> bool {
    w.len() > 0 && forall|m: int| 0 <= m < w.len() ==> !is_ws(#[trigger] w[m]) && w[m] != '='
}

proof fn lemma_mismatch(s: Seq<char>, k: Seq<char>, m: int, x: int)
    requires
        0 <= x < k.len(),
        0 <= m,
        m + x < s.len(),
        s[m + x] != k[x],
    ensures
        !occurs_at(s, k, m),
{
    if occurs_at(s, k, m) {
        assert(s.subrange(m, m + k.len())[x] == s[m + x]);
    }
}

/// A key that ends in `=` and occurs in `a + w`, where `w` holds no `=`,
/// occurs within `a`.
proof fn lemma_occ_before_word(a: Seq<char>, w: Seq<char>, k: Seq<char>, m: int)
    requires
        k.len() > 0,
        k.last() == '=',
        forall|p: int| 0 <= p < w.len() ==> #[trigger] w[p] != '=',
        occurs_at(a + w, k, m),
    ensures
        m + k.len() <= a.len(),
        occurs_at(a, k, m),
{
    let c = a + w;
    assert(c[m + k.len() - 1] == c.subrange(m, m + k.len())[k.len() - 1]);
    if m + k.len() > a.len() {
        assert(w[m + k.len() - 1 - a.len()] == '=');
    }
    assert(a.subrange(m, m + k.len()) =~= c.subrange(m, m + k.len()));
}

/// The literal tokens that follow the device hold neither key.
proof fn lemma_literal_keys(k: Seq<char>)
    requires
        k == "root="@ || k == "rootfstype="@,
    ensures
        no_occ("console=tty1"@, k),
        no_occ("console=serial0,115200"@, k),
        k == "root="@ ==> no_occ("rootfstype="@, k),
        k == "rootfstype="@ ==> forall|m: int| #[trigger] occurs_at("root="@, k, m) ==> false,
{
    reveal_strlit("root=");
    reveal_strlit("rootfstype=");
    reveal_strlit("console=tty1");
    reveal_strlit("console=serial0,115200");
    let t = "console=tty1"@;
    let s = "console=serial0,115200"@;
    let r = "rootfstype="@;
    assert forall|m: int| !#[trigger] occurs_at(t, k, m) by {
        if m >= 0 && m + k.len() <= t.len() {
            lemma_mismatch(t, k, m, 0);
        }
    }
    assert forall|m: int| !#[trigger] occurs_at(s, k, m) by {
        if m >= 0 && m + k.len() <= s.len() {
            if s[m] != 'r' {
                lemma_mismatch(s, k, m, 0);
            } else {
                assert(m == 10);
                lemma_mismatch(s, k, m, 1);
            }
        }
    }
    if k == "root="@ {
        assert forall|m: int| !#[trigger] occurs_at(r, k, m) by {
            if m >= 0 && m + k.len() <= r.len() {
                if m == 0 {
                    lemma_mismatch(r, k, m, 4);
                } else {
                    lemma_mismatch(r, k, m, 0);
                }
            }
        }
    }
}

proof fn lemma_trim_end_prefix(s: Seq<char>)
    ensures
        trim_end(s).len() <= s.len(),
        trim_end(s) == s.subrange(0, trim_end(s).len() as int),
        forall|m: int| trim_end(s).len() <= m < s.len() ==> is_ws(#[trigger] s[m]),
    decreases s.len(),
{
    if s.len() > 0 && is_ws(s.last()) {
        let d = s.drop_last();
        lemma_trim_end_prefix(d);
        let n = trim_end(s).len() as int;
        assert(d.subrange(0, n) =~= s.subrange(0, n));
        assert forall|m: int| n <= m < s.len() implies is_ws(#[trigger] s[m]) by {
            if m < d.len() {
                assert(d[m] == s[m]);
            }
        }
    } else {
        assert(s.subrange(0, s.len() as int) =~= s);
    }
}

proof fn lemma_trim_keeps_tokens(s: Seq<char>, k: Seq<char>)
    requires
        plain_key(k),
        tokens_only(s, k),
    ensures
        tokens_only(trim_end(s), k),
        forall|j: int| #[trigger] tok_start(trim_end(s), k, j) ==> tok_start(s, k, j),
{
    lemma_trim_end_prefix(s);
    let t = trim_end(s);
    let n = t.len() as int;
    assert forall|j: int| #[trigger] occurs_at(t, k, j) implies tok_start(t, k, j) && token_at(t, k, j) by {
        lemma_occ_prefix(s, n, k, j);
        if j > 0 {
            assert(t[j - 1] == s[j - 1]);
        }
        if j + k.len() >= n {
            assert(is_ws(s[j + k.len()]));
        }
        assert(t[j + k.len()] == s[j + k.len()]);
    }
    assert forall|j: int| #[trigger] tok_start(t, k, j) implies tok_start(s, k, j) by {
        lemma_occ_prefix(s, n, k, j);
        if j > 0 {
            assert(t[j - 1] == s[j - 1]);
        }
    }
}

proof fn lemma_trim_keeps_no_tokens(s: Seq<char>, k: Seq<char>)
    requires
        forall|j: int| !#[trigger] tok_start(s, k, j),
    ensures
        forall|j: int| !#[trigger] tok_start(trim_end(s), k, j),
{
    lemma_trim_end_prefix(s);
    let t = trim_end(s);
    assert forall|j: int| !#[trigger] tok_start(t, k, j) by {
        if tok_start(t, k, j) {
            lemma_occ_prefix(s, t.len() as int, k, j);
            if j > 0 {
                assert(t[j - 1] == s[j - 1]);
            }
            assert(tok_start(s, k, j));
        }
    }
}

/// The generated command line, taken apart at the spaces that separate the
/// stripped old text, the boot tokens and the extra options.
pub open spec fn assembled(st: Seq<char>, root_dev: Seq<char>, fs_type: Seq<char>, o: Seq<char>) -> Seq<char> {
    let x4 = if o.len() == 0 {
        "console=serial0,115200"@ + "\n"@
    } else {
        "console=serial0,115200"@ + seq![' '] + (o + "\n"@)
    };
    st + seq![' '] + (("root="@ + root_dev) + seq![' '] + (("rootfstype="@ + fs_type) + seq![' ']
        + ("console=tty1"@ + seq![' '] + x4)))
}

/// In the assembled line a token `root=` or `rootfstype=` starts only where
/// the boot tokens put it.
proof fn lemma_locate_key(
    st: Seq<char>,
    root_dev: Seq<char>,
    fs_type: Seq<char>,
    o: Seq<char>,
    k: Seq<char>,
    j: int,
)
    requires
        k == "root="@ || k == "rootfstype="@,
        no_occ(st, k),
        word(root_dev),
        word(fs_type),
        forall|m: int| !#[trigger] tok_start(o, k, m),
        tok_start(assembled(st, root_dev, fs_type, o), k, j),
    ensures
        j == if k == "root="@ {
            st.len() + 1
        } else {
            st.len() + 7 + root_dev.len()
        },
{
    reveal_strlit("root=");
    reveal_strlit("rootfstype=");
    reveal_strlit("console=tty1");
    reveal_strlit("console=serial0,115200");
    reveal_strlit("\n");
    let kr = "root="@;
    let kf = "rootfstype="@;
    let lt = "console=tty1"@;
    let ls = "console=serial0,115200"@;
    let nl = "\n"@;
    assert(plain_key(k));
    assert(k.last() == '=');
    assert(forall|p: int| 0 <= p < nl.len() ==> #[trigger] nl[p] != '=');
    assert(forall|p: int| 0 <= p < root_dev.len() ==> #[trigger] root_dev[p] != '=');
    assert(forall|p: int| 0 <= p < fs_type.len() ==> #[trigger] fs_type[p] != '=');
    lemma_literal_keys(k);
    let x4 = if o.len() == 0 {
        ls + nl
    } else {
        ls + seq![' '] + (o + nl)
    };
    let x3 = lt + seq![' '] + x4;
    let x2 = (kf + fs_type) + seq![' '] + x3;
    let x1 = (kr + root_dev) + seq![' '] + x2;
    let c = st + seq![' '] + x1;
    assert(c == assembled(st, root_dev, fs_type, o));
    let n = st.len() as int;
    lemma_occ_split(st, x1, k, j);
    let j1 = j - n - 1;
    lemma_occ_split(kr + root_dev, x2, k, j1);
    if j1 + k.len() <= (kr + root_dev).len() {
        lemma_occ_before_word(kr, root_dev, k, j1);
    } else {
        let j2 = j1 - (kr + root_dev).len() - 1;
        lemma_occ_split(kf + fs_type, x3, k, j2);
        if j2 + k.len() <= (kf + fs_type).len() {
            lemma_occ_before_word(kf, fs_type, k, j2);
        } else {
            let j3 = j2 - (kf + fs_type).len() - 1;
            lemma_occ_split(lt, x4, k, j3);
            let j4 = j3 - lt.len() - 1;
            if o.len() == 0 {
                lemma_occ_before_word(ls, nl, k, j4);
            } else {
                lemma_occ_split(ls, o + nl, k, j4);
                let j5 = j4 - ls.len() - 1;
                lemma_occ_before_word(o, nl, k, j5);
                let pre = st + seq![' '] + (kr + root_dev) + seq![' '] + (kf + fs_type) + seq![
                    ' ',
                ] + lt + seq![' '] + ls + seq![' '];
                assert(c =~= pre + (o + nl));
                assert(o.subrange(j5, j5 + k.len()) =~= c.subrange(j, j + k.len()));
                if j5 > 0 {
                    assert(c[j - 1] == o[j5 - 1]);
                }
                assert(tok_start(o, k, j5));
            }
        }
    }
}

/// Every generated `cmdline.txt` holds exactly one token that starts with
/// `root=`, which is `root=` and the root device, and exactly one that
/// starts with `rootfstype=`, which is `rootfstype=` and the file system
/// type. This holds where every `root=` and `rootfstype=` of the old text
/// is a whole token with a value, the device and the type are single words,
/// and the extra options set neither key.
pub proof fn lemma_cmdline_single_root(text: Seq<char>, root_dev: Seq<char>, fs_type: Seq<char>, opts: Seq<char>)
    requires
        tokens_only(text, "root="@),
        tokens_only(text, "rootfstype="@),
        word(root_dev),
        word(fs_type),
        forall|j: int| !#[trigger] tok_start(opts, "root="@, j),
        forall|j: int| !#[trigger] tok_start(opts, "rootfstype="@, j),
    ensures
        ({
            let c = cmdline_txt(text, root_dev, fs_type, opts);
            let r: int = strip_boot_tokens(trim_end(text)).len() as int + 1;
            let f: int = r + 6 + root_dev.len();
            &&& tok_start(c, "root="@, r)
            &&& c.subrange(r + 5, r + 5 + root_dev.len()) == root_dev
            &&& is_ws(c[r + 5 + root_dev.len()])
            &&& forall|j: int| #[trigger] tok_start(c, "root="@, j) ==> j == r
            &&& tok_start(c, "rootfstype="@, f)
            &&& c.subrange(f + 11, f + 11 + fs_type.len()) == fs_type
            &&& is_ws(c[f + 11 + fs_type.len()])
            &&& forall|j: int| #[trigger] tok_start(c, "rootfstype="@, j) ==> j == f
        }),
{
    reveal_strlit("root=");
    reveal_strlit("rootfstype=");
    reveal_strlit("console=");
    reveal_strlit(" root=");
    reveal_strlit(" rootfstype=");
    reveal_strlit(" console=tty1 console=serial0,115200");
    reveal_strlit("console=tty1");
    reveal_strlit("console=serial0,115200");
    reveal_strlit("\n");
    reveal_strlit(" ");
    let kr = "root="@;
    let kf = "rootfstype="@;
    let kc = "console="@;
    assert(plain_key(kr) && plain_key(kf) && plain_key(kc));
    let c0 = trim_end(text);
    lemma_trim_keeps_tokens(text, kr);
    lemma_trim_keeps_tokens(text, kf);
    let c1 = replace_all(c0, kr, seq![' ']);
    lemma_strip_removes(c0, kr);
    lemma_strip_keeps_tokens(c0, kr, kf);
    let c2 = replace_all(c1, kf, seq![' ']);
    lemma_strip_removes(c1, kf);
    lemma_strip_keeps_absent(c1, kf, kr);
    let st = replace_all(c2, kc, seq![' ']);
    lemma_strip_keeps_absent(c2, kc, kr);
    lemma_strip_keeps_absent(c2, kc, kf);
    assert(st == strip_boot_tokens(c0));
    let o = trim_end(opts);
    lemma_trim_keeps_no_tokens(opts, kr);
    lemma_trim_keeps_no_tokens(opts, kf);
    let c = assembled(st, root_dev, fs_type, o);
    assert(c =~= cmdline_txt(text, root_dev, fs_type, opts));
    let n = st.len() as int;
    let r: int = n + 1;
    let f: int = r + 6 + root_dev.len();
    assert(c.subrange(r, r + 5) =~= kr);
    assert(c.subrange(r + 5, r + 5 + root_dev.len()) =~= root_dev);
    assert(c[r + 5 + root_dev.len()] == ' ');
    assert(c.subrange(f, f + 11) =~= kf);
    assert(c.subrange(f + 11, f + 11 + fs_type.len()) =~= fs_type);
    assert(c[f + 11 + fs_type.len()] == ' ');
    assert(is_ws(' '));
    assert forall|j: int| #[trigger] tok_start(c, kr, j) implies j == r by {
        lemma_locate_key(st, root_dev, fs_type, o, kr, j);
    }
    assert forall|j: int| #[trigger] tok_start(c, kf, j) implies j == f by {
        lemma_locate_key(st, root_dev, fs_type, o, kf, j);
    }
}

/// Where every `root=`, `rootfstype=` and `console=` of the old text is a
/// whole token with a value, none of them is left of the old text: the
/// generated line starts with the old text stripped of all three, which
/// holds none of these keys, and then come the boot tokens.
pub proof fn lemma_cmdline_old_tokens_gone(text: Seq<char>, root_dev: Seq<char>, fs_type: Seq<char>, opts: Seq<char>)
    requires
        tokens_only(text, "root="@),
        tokens_only(text, "rootfstype="@),
        tokens_only(text, "console="@),
    ensures
        ({
            let st = strip_boot_tokens(trim_end(text));
            &&& cmdline_txt(text, root_dev, fs_type, opts).subrange(0, st.len() as int) == st
            &&& no_occ(st, "root="@)
            &&& no_occ(st, "rootfstype="@)
            &&& no_occ(st, "console="@)
        }),
{
    reveal_strlit("root=");
    reveal_strlit("rootfstype=");
    reveal_strlit("console=");
    let kr = "root="@;
    let kf = "rootfstype="@;
    let kc = "console="@;
    assert(plain_key(kr) && plain_key(kf) && plain_key(kc));
    let c0 = trim_end(text);
    lemma_trim_keeps_tokens(text, kr);
    lemma_trim_keeps_tokens(text, kf);
    lemma_trim_keeps_tokens(text, kc);
    let c1 = replace_all(c0, kr, seq![' ']);
    lemma_strip_removes(c0, kr);
    lemma_strip_keeps_tokens(c0, kr, kf);
    lemma_strip_keeps_tokens(c0, kr, kc);
    let c2 = replace_all(c1, kf, seq![' ']);
    lemma_strip_removes(c1, kf);
    lemma_strip_keeps_absent(c1, kf, kr);
    lemma_strip_keeps_tokens(c1, kf, kc);
    lemma_strip_removes(c2, kc);
    lemma_strip_keeps_absent(c2, kc, kr);
    lemma_strip_keeps_absent(c2, kc, kf);
    let st = strip_boot_tokens(c0);
    let c = cmdline_txt(text, root_dev, fs_type, opts);
    assert(c.subrange(0, st.len() as int) =~= st);
}

/// The number of lines in `ls` that `key` starts, after white space only:
/// the active settings of `key`.
pub open spec fn count_active(ls: Seq<Seq<char>>, key: Seq<char>) -> nat
    decreases ls.len(),
{
    if ls.len() == 0 {
        0
    } else {
        count_active(ls.drop_last(), key) + if key_at_start(ls.last(), key) {
            1nat
        } else {
            0nat
        }
    }
}

proof fn lemma_count_concat(a: Seq<Seq<char>>, b: Seq<Seq<char>>, key: Seq<char>)
    ensures
        count_active(a + b, key) == count_active(a, key) + count_active(b, key),
    decreases b.len(),
{
    if b.len() == 0 {
        assert(a + b == a);
    } else {
        lemma_count_concat(a, b.drop_last(), key);
        assert((a + b).drop_last() == a + b.drop_last());
    }
}

proof fn lemma_count_single(l: Seq<char>, key: Seq<char>)
    ensures
        count_active(seq![l], key) == if key_at_start(l, key) {
            1nat
        } else {
            0nat
        },
{
    assert(seq![l].drop_last() == Seq::<Seq<char>>::empty());
    assert(count_active(Seq::<Seq<char>>::empty(), key) == 0);
    assert(seq![l].last() == l);
}

/// A line whose first character is neither white nor the key's first one
/// is no setting of that key.
proof fn lemma_inactive(l: Seq<char>, key: Seq<char>)
    requires
        key.len() > 0,
        l.len() > 0,
        !is_ws(l[0]),
        l[0] != key[0],
    ensures
        !key_at_start(l, key),
{
    if key_at_start(l, key) {
        let n = choose|n: int|
            #![trigger l.subrange(n, n + key.len())]
            0 <= n && n + key.len() <= l.len() && (forall|m: int| 0 <= m < n ==> is_ws(l[m]))
                && l.subrange(n, n + key.len()) == key;
        if n == 0 {
            assert(l.subrange(0, key.len() as int)[0] == l[0]);
        } else {
            assert(is_ws(l[0]));
        }
    }
}

proof fn lemma_active(l: Seq<char>, key: Seq<char>)
    requires
        key.len() <= l.len(),
        l.subrange(0, key.len() as int) == key,
    ensures
        key_at_start(l, key),
{
    assert(l.subrange(0int, 0int + key.len()) == key);
}

/// No rewritten line of the old text sets a key that the rewrite comments out.
proof fn lemma_rewritten_inactive(src: Seq<Seq<char>>, t: BootType, key: Seq<char>)
    requires
        key == "kernel"@ || key == "initramfs"@ || (t == BootType::Raspi64 && key
            == "arm_64bit"@),
    ensures
        count_active(src.map_values(|l: Seq<char>| rewrite_line(l, t)), key) == 0,
    decreases src.len(),
{
    reveal_strlit("kernel");
    reveal_strlit("initramfs");
    reveal_strlit("arm_64bit");
    reveal_strlit("# ");
    let m = src.map_values(|l: Seq<char>| rewrite_line(l, t));
    if src.len() > 0 {
        lemma_rewritten_inactive(src.drop_last(), t, key);
        assert(m.drop_last() == src.drop_last().map_values(|l: Seq<char>| rewrite_line(l, t)));
        let l = src.last();
        if is_replaced_line(l, t) {
            assert(("# "@ + l)[0] == '#');
            lemma_inactive("# "@ + l, key);
        }
    }
}

/// Every rewritten `config.txt` has exactly one active `kernel` line and
/// exactly one active `initramfs` line; for the 64-bit variant, exactly
/// one active `arm_64bit` line, and it is `arm_64bit=1`.
pub proof fn lemma_config_single_boot_lines(text: Seq<char>, t: BootType)
    ensures
        count_active(config_lines(text, t), "kernel"@) == 1,
        count_active(config_lines(text, t), "initramfs"@) == 1,
        t == BootType::Raspi64 ==> count_active(config_lines(text, t), "arm_64bit"@) == 1,
        t == BootType::Raspi64 ==> config_lines(text, t).contains("arm_64bit=1"@),
{
    reveal_strlit("kernel");
    reveal_strlit("initramfs");
    reveal_strlit("arm_64bit");
    reveal_strlit("## created by balena-migrate");
    reveal_strlit("arm_64bit=1");
    reveal_strlit("enable_uart=1");
    reveal_strlit("initramfs balena.initramfs.cpio.gz followkernel");
    reveal_strlit("kernel balena.zImage");
    let head: Seq<Seq<char>> = if is_balena_config(text) {
        seq![]
    } else {
        seq![BALENA_FILE_TAG@]
    };
    let mid = lines_of(text).map_values(|l: Seq<char>| rewrite_line(l, t));
    let arm: Seq<Seq<char>> = if t == BootType::Raspi64 {
        seq!["arm_64bit=1"@]
    } else {
        seq![]
    };
    let e = "enable_uart=1"@;
    let i = "initramfs balena.initramfs.cpio.gz followkernel"@;
    let k = "kernel balena.zImage"@;
    assert(seq![e, i, k] == seq![e] + seq![i] + seq![k]);
    assert(config_lines(text, t) == head + mid + arm + seq![e] + seq![i] + seq![k]);
    let keys = seq!["kernel"@, "initramfs"@, "arm_64bit"@];
    assert forall|j: int| 0 <= j < 3 implies {
        let key = #[trigger] keys[j];
        (j < 2 || t == BootType::Raspi64) ==> count_active(config_lines(text, t), key) == 1
    } by {
        let key = keys[j];
        if j < 2 || t == BootType::Raspi64 {
            lemma_count_concat(head + mid + arm + seq![e] + seq![i], seq![k], key);
            lemma_count_concat(head + mid + arm + seq![e], seq![i], key);
            lemma_count_concat(head + mid + arm, seq![e], key);
            lemma_count_concat(head + mid, arm, key);
            lemma_count_concat(head, mid, key);
            lemma_rewritten_inactive(lines_of(text), t, key);
            if !is_balena_config(text) {
                lemma_count_single(BALENA_FILE_TAG@, key);
                lemma_inactive(BALENA_FILE_TAG@, key);
            }
            if t == BootType::Raspi64 {
                lemma_count_single("arm_64bit=1"@, key);
                if j < 2 {
                    lemma_inactive("arm_64bit=1"@, key);
                } else {
                    assert("arm_64bit=1"@.subrange(0, key.len() as int) =~= key);
                    lemma_active("arm_64bit=1"@, key);
                }
            }
            lemma_count_single(e, key);
            lemma_inactive(e, key);
            lemma_count_single(i, key);
            lemma_count_single(k, key);
            if j == 0 {
                lemma_inactive(i, key);
                assert(k.subrange(0, key.len() as int) =~= key);
                lemma_active(k, key);
            } else if j == 1 {
                assert(i.subrange(0, key.len() as int) =~= key);
                lemma_active(i, key);
                lemma_inactive(k, key);
            } else {
                lemma_inactive(i, key);
                lemma_inactive(k, key);
            }
        }
    }
    assert(keys[0] == "kernel"@);
    assert(keys[1] == "initramfs"@);
    assert(keys[2] == "arm_64bit"@);
    if t == BootType::Raspi64 {
        assert(config_lines(text, t)[head.len() + mid.len() as int] == "arm_64bit=1"@);
    }
}

} // verus!
