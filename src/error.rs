//! Why a patch was refused.
use vstd::prelude::*;

verus! {

/// The reasons a patch is refused. Every one of them leaves the byte store
/// as it was.
#[derive(Clone, Copy, Debug, PartialEq, Eq, Structural)]
pub enum PatchError {
    /// The first four bytes are no magic number this library knows.
    UnknownMagic(u32),
    /// A known format that is not handled; holds its magic number
    /// (32-bit Mach-O).
    UnsupportedFormat(u32),
    /// A fat archive whose architecture table is empty.
    NoArchitectures,
    /// A fat archive entry for a CPU type other than x86-64 and arm64.
    UnsupportedArchitecture(u32),
    /// A header or table runs past the end of the data.
    TruncatedHeader,
    /// The new command would not be consistent with the image: a header
    /// count would overflow, or the bytes where the command goes are not
    /// free (zero) space.
    Inconsistent,
}

} // verus!
