//! Errors that the unlocker's decisions end in.
use vstd::prelude::*;

verus! {

#[derive(Clone, Debug, PartialEq, Eq)]
pub enum Error {
    /// No partition matched the search for the boot partition.
    NoBootPartitions,
    /// A firmware call failed; the UEFI status code.
    Firmware(usize),
    /// The configuration file is missing from the unlocker's own volume.
    ConfigMissing,
    /// The configured load options cannot be written as UCS-2 text.
    ConfigArgsBadUtf16,
    /// The named image could not be read from the boot partition.
    ImageNotFound(String),
    /// The image read from the boot partition does not start with the
    /// PE/COFF `MZ` signature.
    ImageNotPeCoff,
}

} // verus!
