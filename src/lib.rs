//! Stage-1 preflight and boot-takeover engine for migrating a running host
//! to balenaOS: the decisions, file rewrites and hand-off records, each
//! stated with a contract.

pub mod error;
pub mod arch;
pub mod text;
pub mod pattern;
pub mod boot;
pub mod raspi;
pub mod disk;
pub mod files;
pub mod device;
pub mod linux;
pub mod stage2;
pub mod restore;
pub mod mswin;
