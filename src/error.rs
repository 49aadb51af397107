use vstd::prelude::*;

verus! {

/// The kinds of failure the engine reports.
#[derive(Clone, Copy, Debug, PartialEq, Eq, Structural)]
pub enum MigErrorKind {
    InsufficientPrivilege,
    UnsupportedArchitecture,
    UnsupportedOs,
    UnsupportedDevice,
    SecureBootEnabled,
    SplitDriveLayout,
    DiskTooSmall,
    InsufficientBootSpace,
    InsufficientMemory,
    MissingFile,
    InvalidFileType,
    DigestMismatch,
    MissingCommand,
    ExternalCommandFailed,
    IoError,
    InvalidParam,
    InvalidState,
    NotImplemented,
    Displayed,
}

/// A failure: its kind and a remark for the operator.
#[derive(Clone, Debug)]
pub struct MigError {
    pub kind: MigErrorKind,
    pub remark: String,
}

impl MigError {
    pub fn from_remark(kind: MigErrorKind, remark: &str) -> (r: MigError)
        ensures
            r.kind == kind,
            r.remark@ == remark@,
    {
        MigError { kind, remark: String::from_str(remark) }
    }

    /// An error whose cause has already been reported to the operator.
    pub fn displayed() -> (r: MigError)
        ensures
            r.kind == MigErrorKind::Displayed,
    {
        MigError { kind: MigErrorKind::Displayed, remark: String::new() }
    }

    pub fn kind(&self) -> (r: MigErrorKind)
        ensures
            r == self.kind,
    {
        self.kind
    }
}

} // verus!
