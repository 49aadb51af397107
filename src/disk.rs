use vstd::prelude::*;
use crate::error::{MigError, MigErrorKind};
use crate::pattern::{lemma_run_end, run_end};
use crate::text::{
    chars_of, digits_end, digits_value, is_digit, is_ws, is_ws_char, lemma_digits_end, lines_of,
    split_lines, trim, trim_str,
};

verus! {

/// A mounted file system and what backs it.
#[derive(Clone, Debug)]
pub struct PartitionInfo {
    /// Where it is mounted.
    pub path: String,
    /// The partition as the kernel names it (`/dev/sda1`).
    pub device: String,
    /// The drive the partition lies on (`/dev/sda`).
    pub drive: String,
    /// The file system type (`ext4`, `vfat`, ...).
    pub fs_type: String,
    /// Size and free space of the file system, in bytes.
    pub fs_size: u64,
    pub fs_free: u64,
}

impl PartitionInfo {
    /// A copy of this record.
    pub fn duplicate(&self) -> (r: PartitionInfo)
        ensures
            r == *self,
    {
        PartitionInfo {
            path: self.path.clone(),
            device: self.device.clone(),
            drive: self.drive.clone(),
            fs_type: self.fs_type.clone(),
            fs_size: self.fs_size,
            fs_free: self.fs_free,
        }
    }
}

/// The installation drive: its device, size in bytes and UUID.
#[derive(Clone, Debug)]
pub struct DriveLayout {
    pub drive: String,
    pub size: u64,
    pub uuid: String,
}

/// The fields of an `lsblk` data line `SIZE [UUID]`: the size digits and
/// the UUID, empty when that column is blank; `None` where the line has
/// another shape.
pub open spec fn lsblk_fields(l: Seq<char>) -> Option<(Seq<char>, Seq<char>)> {
    let d = digits_end(l, 0);
    if d == 0 {
        None
    } else if d == l.len() {
        Some((l.subrange(0, d), Seq::<char>::empty()))
    } else if is_ws(l[d]) {
        Some((l.subrange(0, d), l.subrange(run_end(l, d, true), l.len() as int)))
    } else {
        None
    }
}

/// The drive layout that `lsblk -b --output=SIZE,UUID <drive>` reports:
/// the command must succeed with output, a header line and a data line of
/// the shape `SIZE [UUID]`.
pub open spec fn lsblk_layout(success: bool, stdout: Seq<char>) -> Result<(nat, Seq<char>), MigErrorKind> {
    let out = trim(stdout);
    if !success || out.len() == 0 {
        Err(MigErrorKind::ExternalCommandFailed)
    } else if lines_of(out).len() < 2 {
        Err(MigErrorKind::InvalidParam)
    } else {
        match lsblk_fields(lines_of(out)[1]) {
            None => Err(MigErrorKind::InvalidParam),
            Some((d, u)) => if digits_value(d) > u64::MAX {
                Err(MigErrorKind::InvalidParam)
            } else {
                Ok((digits_value(d), u))
            },
        }
    }
}

fn is_digit_char(c: char) -> (r: bool)
    ensures
        r == is_digit(c),
{
    '0' <= c && c <= '9'
}

/// The value of the digits `d[0..end]`, if it fits in 64 bits.
fn digits_u64(d: &Vec<char>, end: usize) -> (r: Option<u64>)
    requires
        end <= d@.len(),
        forall|m: int| 0 <= m < end ==> is_digit(d@[m]),
    ensures
        r == (if digits_value(d@.subrange(0, end as int)) <= u64::MAX {
            Some(digits_value(d@.subrange(0, end as int)) as u64)
        } else {
            None::<u64>
        }),
{
    let mut v: u64 = 0;
    let mut i: usize = 0;
    while i < end
        invariant
            end <= d@.len(),
            i <= end,
            forall|m: int| 0 <= m < end ==> is_digit(d@[m]),
            v == digits_value(d@.subrange(0, i as int)),
        decreases end - i,
    {
        let c = d[i];
        let dv = (c as u32 - 48) as u64;
        assert(d@.subrange(0, i + 1).drop_last() == d@.subrange(0, i as int));
        proof {
            lemma_digits_value_monotone(d@.subrange(0, end as int), i + 1);
            assert(d@.subrange(0, end as int).subrange(0, i + 1) == d@.subrange(0, i + 1));
        }
        if v > (u64::MAX - dv) / 10 {
            assert(digits_value(d@.subrange(0, i + 1)) > u64::MAX) by (nonlinear_arith)
                requires
                    v > (u64::MAX - dv) / 10,
                    digits_value(d@.subrange(0, i + 1)) == v * 10 + dv,
            ;
            return None;
        }
        v = v * 10 + dv;
        i = i + 1;
    }
    Some(v)
}

/// A number does not shrink as digits are appended to it.
proof fn lemma_digits_value_monotone(d: Seq<char>, k: int)
    requires
        0 <= k <= d.len(),
        forall|m: int| 0 <= m < d.len() ==> is_digit(d[m]),
    ensures
        digits_value(d.subrange(0, k)) <= digits_value(d),
    decreases d.len() - k,
{
    if k < d.len() {
        lemma_digits_value_monotone(d, k + 1);
        assert(d.subrange(0, k + 1).drop_last() == d.subrange(0, k));
        assert(d.subrange(0, k + 1).last() == d[k]);
    } else {
        assert(d.subrange(0, k) == d);
    }
}

/// Reads the drive layout from the output of `lsblk -b --output=SIZE,UUID <drive>`.
pub fn drive_layout_from_lsblk(drive: &str, success: bool, stdout: &str) -> (r: Result<
    DriveLayout,
    MigError,
>)
    ensures
        match lsblk_layout(success, stdout@) {
            Ok((size, uuid)) => r matches Ok(l) && l.size == size && l.uuid@ == uuid && l.drive@
                == drive@,
            Err(kind) => r matches Err(e) && e.kind == kind,
        },
{
    let out = trim_str(stdout);
    if !success || out.as_str().unicode_len() == 0 {
        return Err(MigError::from_remark(MigErrorKind::ExternalCommandFailed, "failed to retrieve block device attributes"));
    }
    let lines = split_lines(out.as_str());
    if lines.len() < 2 {
        return Err(MigError::from_remark(MigErrorKind::InvalidParam, "failed to parse block device attributes"));
    }
    let line = lines[1].as_str();
    let cs = chars_of(line);
    let n = cs.len();
    let mut d: usize = 0;
    while d < n && is_digit_char(cs[d])
        invariant
            cs@ == line@,
            n == line@.len(),
            d <= n,
            digits_end(line@, 0) == digits_end(line@, d as int),
            forall|m: int| 0 <= m < d ==> is_digit(line@[m]),
        decreases n - d,
    {
        d = d + 1;
    }
    assert(digits_end(line@, d as int) == d);
    let mut size: u64 = 0;
    let mut uuid = String::new();
    if !(d > 0 && (d == n || is_ws_char(cs[d]))) {
        return Err(MigError::from_remark(MigErrorKind::InvalidParam, "the block device attributes have an unexpected shape"));
    }
    {
        match digits_u64(&cs, d) {
            None => {
                return Err(MigError::from_remark(MigErrorKind::InvalidParam, "drive size is out of range"));
            },
            Some(v) => {
                size = v;
            },
        }
        if d < n {
            let mut u = d;
            while u < n && is_ws_char(cs[u])
                invariant
                    cs@ == line@,
                    n == line@.len(),
                    d <= u <= n,
                    run_end(line@, d as int, true) == run_end(line@, u as int, true),
                decreases n - u,
            {
                u = u + 1;
            }
            uuid = String::from_str(line.substring_char(u, n));
        }
    }
    Ok(DriveLayout { drive: String::from_str(drive), size, uuid })
}

/// Whether `/`, `/boot` and, where there is one, the EFI partition lie on
/// one drive.
pub open spec fn same_drive(root: PartitionInfo, boot: PartitionInfo, efi: Option<PartitionInfo>) -> bool {
    root.drive@ == boot.drive@ && match efi {
        Some(e) => e.drive@ == root.drive@,
        None => true,
    }
}

/// Fails with `SplitDriveLayout` unless `/`, `/boot` and the EFI partition
/// share one drive.
pub fn check_same_drive(root: &PartitionInfo, boot: &PartitionInfo, efi: &Option<PartitionInfo>) -> (r: Result<(), MigError>)
    ensures
        r is Ok <==> same_drive(*root, *boot, *efi),
        r matches Err(e) ==> e.kind == MigErrorKind::SplitDriveLayout,
{
    let split = if root.drive != boot.drive {
        true
    } else {
        match efi {
            Some(e) => e.drive != root.drive,
            None => false,
        }
    };
    if split {
        Err(MigError::from_remark(MigErrorKind::SplitDriveLayout, "/boot, /boot/efi and / must be on one drive"))
    } else {
        Ok(())
    }
}

} // verus!

verus! {

/// A line of the mount table: where a file system is mounted, from which
/// device, and its type.
#[derive(Clone, Debug)]
pub struct MountEntry {
    pub mount_point: String,
    pub device: String,
    pub fs_type: String,
}

/// Path `p` lies in directory `m`: it is `m`, or `m` followed by a path
/// separator and more.
pub open spec fn is_under(p: Seq<char>, m: Seq<char>) -> bool {
    p == m || (m.len() < p.len() && p.subrange(0, m.len() as int) == m && (p[m.len() as int] == '/'
        || (m.len() > 0 && m.last() == '/')))
}

/// Among the first `n` mount entries, the one that `p` lies in with the
/// longest mount point; of equal ones the later, which hides the earlier.
pub open spec fn resolve_in(ms: Seq<MountEntry>, p: Seq<char>, n: int) -> Option<int>
    decreases n,
{
    if n <= 0 {
        None
    } else {
        let r = resolve_in(ms, p, n - 1);
        let m = ms[n - 1].mount_point@;
        if is_under(p, m) && (r is None || ms[r->0].mount_point@.len() <= m.len()) {
            Some(n - 1)
        } else {
            r
        }
    }
}

/// The mount entry of the file system that holds `p`.
pub open spec fn resolve(ms: Seq<MountEntry>, p: Seq<char>) -> Option<int> {
    resolve_in(ms, p, ms.len() as int)
}

/// What `resolve_in` picks: a mount point that `p` lies in, no shorter
/// than any other, and longer than every later one.
pub open spec fn best_mount(ms: Seq<MountEntry>, p: Seq<char>, n: int, i: int) -> bool {
    &&& 0 <= i < n
    &&& is_under(p, ms[i].mount_point@)
    &&& forall|j: int|
        0 <= j < n && #[trigger] is_under(p, ms[j].mount_point@) ==> ms[j].mount_point@.len()
            <= ms[i].mount_point@.len()
    &&& forall|j: int|
        i < j < n && #[trigger] is_under(p, ms[j].mount_point@) ==> ms[j].mount_point@.len()
            < ms[i].mount_point@.len()
}

proof fn lemma_resolve_in(ms: Seq<MountEntry>, p: Seq<char>, n: int)
    requires
        0 <= n <= ms.len(),
    ensures
        resolve_in(ms, p, n) matches Some(i) ==> best_mount(ms, p, n, i),
        resolve_in(ms, p, n) is None ==> forall|j: int|
            0 <= j < n ==> !#[trigger] is_under(p, ms[j].mount_point@),
    decreases n,
{
    if n > 0 {
        lemma_resolve_in(ms, p, n - 1);
    }
}

proof fn lemma_best_unique(ms: Seq<MountEntry>, p: Seq<char>, n: int, i: int)
    requires
        0 <= n <= ms.len(),
        best_mount(ms, p, n, i),
    ensures
        resolve_in(ms, p, n) == Some(i),
{
    lemma_resolve_in(ms, p, n);
    assert(is_under(p, ms[i].mount_point@));
    if let Some(k) = resolve_in(ms, p, n) {
        assert(is_under(p, ms[k].mount_point@));
        if k < i {
            assert(ms[i].mount_point@.len() < ms[k].mount_point@.len());
        } else if i < k {
            assert(ms[k].mount_point@.len() < ms[i].mount_point@.len());
        }
    }
}

proof fn lemma_under_trans(p: Seq<char>, q: Seq<char>, m: Seq<char>)
    requires
        is_under(p, q),
        is_under(q, m),
    ensures
        is_under(p, m),
{
    if p != q && q != m {
        assert(p.subrange(0, m.len() as int) == q.subrange(0, q.len() as int).subrange(0, m.len() as int));
        assert(p.subrange(0, m.len() as int) =~= m);
        assert(p[m.len() as int] == q[m.len() as int]) by {
            assert(p.subrange(0, q.len() as int)[m.len() as int] == q[m.len() as int]);
        }
    }
}

/// Resolution is idempotent: the mount point of the file system that
/// holds `p` resolves to that same file system.
pub proof fn lemma_resolve_idempotent(ms: Seq<MountEntry>, p: Seq<char>)
    requires
        resolve(ms, p) is Some,
    ensures
        resolve(ms, ms[resolve(ms, p)->0].mount_point@) == resolve(ms, p),
{
    let n = ms.len() as int;
    let i = resolve(ms, p)->0;
    lemma_resolve_in(ms, p, n);
    let q = ms[i].mount_point@;
    assert forall|j: int| 0 <= j < n && #[trigger] is_under(q, ms[j].mount_point@) implies ms[j].mount_point@.len()
        <= q.len() by {
        lemma_under_trans(p, q, ms[j].mount_point@);
    }
    assert forall|j: int| i < j < n && #[trigger] is_under(q, ms[j].mount_point@) implies ms[j].mount_point@.len()
        < q.len() by {
        lemma_under_trans(p, q, ms[j].mount_point@);
    }
    assert(is_under(q, q));
    lemma_best_unique(ms, q, n, i);
}

fn under(p: &Vec<char>, m: &Vec<char>) -> (r: bool)
    ensures
        r == is_under(p@, m@),
{
    if m.len() > p.len() {
        return false;
    }
    let mut k: usize = 0;
    while k < m.len()
        invariant
            m@.len() <= p@.len(),
            k <= m@.len(),
            forall|j: int| 0 <= j < k ==> p@[j] == m@[j],
        decreases m.len() - k,
    {
        if p[k] != m[k] {
            assert(p@.subrange(0, m@.len() as int)[k as int] != m@[k as int]);
            assert(p@ != m@) by {
                if p@ == m@ {
                    assert(p@[k as int] == m@[k as int]);
                }
            }
            return false;
        }
        k = k + 1;
    }
    assert(p@.subrange(0, m@.len() as int) =~= m@);
    if m.len() == p.len() {
        assert(p@ =~= m@);
        return true;
    }
    p[m.len()] == '/' || (m.len() > 0 && m[m.len() - 1] == '/')
}

/// The mount entry of the file system that holds `path`.
pub fn resolve_mount(ms: &Vec<MountEntry>, path: &str) -> (r: Option<usize>)
    ensures
        match resolve(ms@, path@) {
            Some(i) => r == Some(i as usize),
            None => r is None,
        },
{
    let p = chars_of(path);
    let mut best: Option<usize> = None;
    let mut best_len: usize = 0;
    let mut n: usize = 0;
    while n < ms.len()
        invariant
            p@ == path@,
            n <= ms@.len(),
            match resolve_in(ms@, path@, n as int) {
                Some(i) => best == Some(i as usize) && best_len == ms@[i].mount_point@.len(),
                None => best is None,
            },
        decreases ms.len() - n,
    {
        let m = chars_of(ms[n].mount_point.as_str());
        if under(&p, &m) && (best.is_none() || best_len <= m.len()) {
            best = Some(n);
            best_len = m.len();
        }
        n = n + 1;
    }
    best
}

} // verus!
