use vstd::prelude::*;
use crate::error::{MigError, MigErrorKind};

verus! {

/// CPU architectures as the host reports them.
#[derive(Clone, Copy, Debug, PartialEq, Eq, Structural)]
pub enum OSArch {
    AMD64,
    ARM64,
    ARMEL,
    ARMHF,
    I386,
    MIPS,
    MIPSEL,
    Powerpc,
    PPC64EL,
    S390EX,
}

/// The architecture that a kernel machine name (`uname -m`) stands for.
pub open spec fn arch_of_machine(m: Seq<char>) -> Option<OSArch> {
    if m == "x86_64"@ || m == "amd64"@ {
        Some(OSArch::AMD64)
    } else if m == "i386"@ || m == "i586"@ || m == "i686"@ {
        Some(OSArch::I386)
    } else if m == "armv7l"@ || m == "armv6l"@ {
        Some(OSArch::ARMHF)
    } else if m == "aarch64"@ || m == "arm64"@ {
        Some(OSArch::ARM64)
    } else {
        None
    }
}

fn is(m: &String, s: &str) -> (r: bool)
    ensures
        r == (m@ == s@),
{
    *m == String::from_str(s)
}

impl OSArch {
    /// The architecture of a kernel machine name; an unknown one is an
    /// `UnsupportedArchitecture` error.
    pub fn from_machine(machine: &str) -> (r: Result<OSArch, MigError>)
        ensures
            match arch_of_machine(machine@) {
                Some(a) => r == Ok::<OSArch, MigError>(a),
                None => r matches Err(e) && e.kind == MigErrorKind::UnsupportedArchitecture,
            },
    {
        let m = String::from_str(machine);
        if is(&m, "x86_64") || is(&m, "amd64") {
            Ok(OSArch::AMD64)
        } else if is(&m, "i386") || is(&m, "i586") || is(&m, "i686") {
            Ok(OSArch::I386)
        } else if is(&m, "armv7l") || is(&m, "armv6l") {
            Ok(OSArch::ARMHF)
        } else if is(&m, "aarch64") || is(&m, "arm64") {
            Ok(OSArch::ARM64)
        } else {
            Err(MigError::from_remark(MigErrorKind::UnsupportedArchitecture, "unknown machine architecture"))
        }
    }
}

} // verus!
