use vstd::prelude::*;

verus! {

/// The boot-manager variants.
#[derive(Clone, Copy, Debug, PartialEq, Eq, Structural)]
pub enum BootType {
    GrubEfi,
    GrubBios,
    Raspi,
    Raspi64,
    UBoot,
    MSWEfi,
}

} // verus!
