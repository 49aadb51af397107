use balena_migrate::arch::OSArch;
use balena_migrate::error::MigErrorKind;
use balena_migrate::text::{decimal_str, split_lines, trim_end_str, trim_str};
use balena_migrate::files::{expect_type, FileType};

#[test]
fn decimal_writes_numbers() {
    assert_eq!(decimal_str(0), "0");
    assert_eq!(decimal_str(7), "7");
    assert_eq!(decimal_str(1554000000), "1554000000");
    assert_eq!(decimal_str(u64::MAX), "18446744073709551615");
}

#[test]
fn lines_split_like_a_reader() {
    assert_eq!(split_lines("a\nb\r\n\nc"), vec!["a", "b", "", "c"]);
    assert_eq!(split_lines("a\n"), vec!["a"]);
    assert!(split_lines("").is_empty());
}

#[test]
fn trimming_removes_unicode_white_space() {
    assert_eq!(trim_end_str("abc \t\n\u{3000}"), "abc");
    assert_eq!(trim_str("  x y \n"), "x y");
}

fn pe_header(machine: u16) -> Vec<u8> {
    let mut h = vec![0u8; 512];
    h[0] = 0x4D;
    h[1] = 0x5A;
    h[0x3C] = 0x80;
    h[0x80..0x84].copy_from_slice(b"PE\0\0");
    h[0x84..0x86].copy_from_slice(&machine.to_le_bytes());
    h
}

#[test]
fn file_kinds_by_signature() {
    assert!(expect_type(&pe_header(0x8664), FileType::KernelAMD64));
    assert!(!expect_type(&pe_header(0x8664), FileType::KernelI386));
    assert!(expect_type(&pe_header(0x014C), FileType::KernelI386));
    let mut arm = vec![0u8; 64];
    arm[0x24..0x28].copy_from_slice(&[0x18, 0x28, 0x6F, 0x01]);
    assert!(expect_type(&arm, FileType::KernelARMHF));
    assert!(!expect_type(&arm, FileType::KernelAMD64));
    let mut arm64 = vec![0u8; 64];
    arm64[0x38..0x3C].copy_from_slice(b"ARM\x64");
    assert!(expect_type(&arm64, FileType::KernelARM64));
    assert!(expect_type(&vec![0x1F, 0x8B, 8, 0], FileType::InitRD));
    assert!(expect_type(&vec![0xFD, 0x37, 0x7A, 0x58, 0x5A, 0x00], FileType::InitRD));
    assert!(!expect_type(&vec![0x1F], FileType::InitRD));
    let mut mbr = vec![0u8; 512];
    mbr[0x1FE] = 0x55;
    mbr[0x1FF] = 0xAA;
    assert!(expect_type(&mbr, FileType::OSImage));
    assert!(!expect_type(&vec![0u8; 512], FileType::OSImage));
    assert!(expect_type(&b"  \n{\"deviceType\": \"raspberrypi3\"}".to_vec(), FileType::JsonConfig));
    assert!(!expect_type(&b"deviceType".to_vec(), FileType::JsonConfig));
    assert!(expect_type(&vec![0xD0, 0x0D, 0xFE, 0xED, 0, 0], FileType::DeviceTreeBlob));
    assert!(expect_type(&vec![], FileType::Text));
    let mut bad_pe = pe_header(0x8664);
    bad_pe[0x3C] = 0xFF;
    bad_pe[0x3D] = 0xFF;
    assert!(!expect_type(&bad_pe, FileType::KernelAMD64));
}

#[test]
fn machine_names_map_to_architectures() {
    assert_eq!(OSArch::from_machine("x86_64").ok(), Some(OSArch::AMD64));
    assert_eq!(OSArch::from_machine("armv7l").ok(), Some(OSArch::ARMHF));
    assert_eq!(OSArch::from_machine("aarch64").ok(), Some(OSArch::ARM64));
    assert_eq!(OSArch::from_machine("i686").ok(), Some(OSArch::I386));
    assert_eq!(OSArch::from_machine("riscv64").err().unwrap().kind, MigErrorKind::UnsupportedArchitecture);
}
