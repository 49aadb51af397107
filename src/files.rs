use vstd::prelude::*;

verus! {

/// What a file supplied to the migration is expected to be.
#[derive(Clone, Copy, Debug, PartialEq, Eq, Structural)]
pub enum FileType {
    KernelAMD64,
    KernelI386,
    KernelARMHF,
    KernelARM64,
    InitRD,
    OSImage,
    JsonConfig,
    DeviceTreeBlob,
    Text,
}

/// A supplied file: its path, its size in bytes and its first bytes (at
/// most 512 are read).
#[derive(Clone, Debug)]
pub struct FileInfo {
    pub path: String,
    pub size: u64,
    pub header: Vec<u8>,
}

/// `h` holds the bytes `m` at offset `at`.
pub open spec fn bytes_at(h: Seq<u8>, at: int, m: Seq<u8>) -> bool {
    0 <= at && at + m.len() <= h.len() && h.subrange(at, at + m.len()) == m
}

/// The little-endian 32-bit number at `at`.
pub open spec fn le32(h: Seq<u8>, at: int) -> int {
    h[at] + h[at + 1] * 0x100 + h[at + 2] * 0x10000 + h[at + 3] * 0x1000000
}

/// An MZ header whose offset at 0x3C leads to a `PE\0\0` signature.
pub open spec fn is_pe(h: Seq<u8>) -> bool {
    &&& bytes_at(h, 0, seq![0x4Du8, 0x5Au8])
    &&& h.len() >= 0x40
    &&& bytes_at(h, le32(h, 0x3C), seq![0x50u8, 0x45u8, 0u8, 0u8])
}

/// The COFF machine field after the PE signature.
pub open spec fn pe_machine(h: Seq<u8>) -> int {
    h[le32(h, 0x3C) + 4] + h[le32(h, 0x3C) + 5] * 0x100
}

/// Whether the header `h` carries the signature of kind `t`.
pub open spec fn has_signature(h: Seq<u8>, t: FileType) -> bool {
    match t {
        FileType::KernelAMD64 => is_pe(h),
        FileType::KernelI386 => is_pe(h) && le32(h, 0x3C) + 6 <= h.len() && pe_machine(h)
            == 0x014C,
        FileType::KernelARMHF => bytes_at(h, 0x24, seq![0x18u8, 0x28u8, 0x6Fu8, 0x01u8]),
        FileType::KernelARM64 => bytes_at(h, 0x38, seq![0x41u8, 0x52u8, 0x4Du8, 0x64u8]),
        FileType::InitRD => bytes_at(h, 0, seq![0x1Fu8, 0x8Bu8]) || bytes_at(
            h,
            0,
            seq![0x28u8, 0xB5u8, 0x2Fu8, 0xFDu8],
        ) || bytes_at(h, 0, seq![0xFDu8, 0x37u8, 0x7Au8, 0x58u8, 0x5Au8, 0x00u8]),
        FileType::OSImage => bytes_at(h, 0, seq![0x1Fu8, 0x8Bu8]) || bytes_at(
            h,
            0x1FE,
            seq![0x55u8, 0xAAu8],
        ),
        FileType::JsonConfig => first_non_space(h, 0) < h.len() && h[first_non_space(h, 0)]
            == 0x7Bu8,
        FileType::DeviceTreeBlob => bytes_at(h, 0, seq![0xD0u8, 0x0Du8, 0xFEu8, 0xEDu8]),
        FileType::Text => true,
    }
}

/// The position of the first byte at or after `i` that is no ASCII white space.
pub open spec fn first_non_space(h: Seq<u8>, i: int) -> int
    decreases h.len() - i,
{
    if i < 0 || i >= h.len() || !(h[i] == 0x20 || h[i] == 0x09 || h[i] == 0x0A || h[i] == 0x0D) {
        i
    } else {
        first_non_space(h, i + 1)
    }
}

fn match_at(h: &Vec<u8>, at: usize, m: &[u8]) -> (r: bool)
    ensures
        r == bytes_at(h@, at as int, m@),
{
    if at > h.len() || m.len() > h.len() - at {
        return false;
    }
    let n = h.len();
    let mut k: usize = 0;
    while k < m.len()
        invariant
            n == h@.len(),
            at + m@.len() <= n,
            k <= m@.len(),
            forall|j: int| 0 <= j < k ==> h@[at + j] == m@[j],
        decreases m.len() - k,
    {
        if h[at + k] != m[k] {
            assert(h@.subrange(at as int, at + m@.len())[k as int] != m@[k as int]);
            return false;
        }
        k = k + 1;
    }
    assert(h@.subrange(at as int, at + m@.len()) == m@);
    true
}

fn le32_at(h: &Vec<u8>, at: usize) -> (r: u64)
    requires
        at + 4 <= h@.len(),
    ensures
        r == le32(h@, at as int),
{
    let n = h.len();
    assert(at + 4 <= n);
    h[at] as u64 + h[at + 1] as u64 * 0x100 + h[at + 2] as u64 * 0x10000 + h[at + 3] as u64
        * 0x1000000
}

fn pe_check(h: &Vec<u8>, i386: bool) -> (r: bool)
    ensures
        r == if i386 {
            has_signature(h@, FileType::KernelI386)
        } else {
            has_signature(h@, FileType::KernelAMD64)
        },
{
    if !match_at(h, 0, &[0x4Du8, 0x5Au8]) || h.len() < 0x40 {
        return false;
    }
    let off = le32_at(h, 0x3C);
    if off > h.len() as u64 {
        return false;
    }
    let off = off as usize;
    if !match_at(h, off, &[0x50u8, 0x45u8, 0u8, 0u8]) {
        return false;
    }
    if !i386 {
        return true;
    }
    if off > h.len() - 6 {
        return false;
    }
    h[off + 4] as u64 + h[off + 5] as u64 * 0x100 == 0x014C
}

/// Whether the header `h` is that of a file of kind `t`.
pub fn expect_type(h: &Vec<u8>, t: FileType) -> (r: bool)
    ensures
        r == has_signature(h@, t),
{
    match t {
        FileType::KernelAMD64 => pe_check(h, false),
        FileType::KernelI386 => pe_check(h, true),
        FileType::KernelARMHF => match_at(h, 0x24, &[0x18u8, 0x28u8, 0x6Fu8, 0x01u8]),
        FileType::KernelARM64 => match_at(h, 0x38, &[0x41u8, 0x52u8, 0x4Du8, 0x64u8]),
        FileType::InitRD => match_at(h, 0, &[0x1Fu8, 0x8Bu8]) || match_at(
            h,
            0,
            &[0x28u8, 0xB5u8, 0x2Fu8, 0xFDu8],
        ) || match_at(h, 0, &[0xFDu8, 0x37u8, 0x7Au8, 0x58u8, 0x5Au8, 0x00u8]),
        FileType::OSImage => match_at(h, 0, &[0x1Fu8, 0x8Bu8]) || match_at(
            h,
            0x1FE,
            &[0x55u8, 0xAAu8],
        ),
        FileType::JsonConfig => {
            let mut i: usize = 0;
            while i < h.len() && (h[i] == 0x20 || h[i] == 0x09 || h[i] == 0x0A || h[i] == 0x0D)
                invariant
                    i <= h@.len(),
                    first_non_space(h@, 0) == first_non_space(h@, i as int),
                decreases h.len() - i,
            {
                i = i + 1;
            }
            i < h.len() && h[i] == 0x7B
        },
        FileType::DeviceTreeBlob => match_at(h, 0, &[0xD0u8, 0x0Du8, 0xFEu8, 0xEDu8]),
        FileType::Text => true,
    }
}

} // verus!
