//! The format dispatcher: reads the magic number at the start of the data
//! and patches a 64-bit Mach-O image or each chosen image of a fat archive.
use vstd::prelude::*;
use crate::bytes::{le32, read_u32_le};
use crate::engine::{
    commands_end, command_size, insert_dylib, insert_spec, pad_path, padded_path, Insertion,
};
use crate::error::PatchError;
use crate::fat::{fat_patched, fat_refused, patch_fat, Decider, FatOutcome};

verus! {

/// The magic number of a 64-bit Mach-O image.
pub const MH_MAGIC_64: u32 = 0xfeed_facf;

/// The magic number of a 32-bit Mach-O image.
pub const MH_MAGIC: u32 = 0xfeed_face;

/// The magic number of a fat archive whose words read in the native order.
pub const FAT_MAGIC: u32 = 0xcafe_babe;

/// The magic number of a fat archive whose words read byte-swapped.
pub const FAT_CIGAM: u32 = 0xbeba_feca;

/// The formats that can be patched.
#[derive(Clone, Copy, Debug, PartialEq, Eq, Structural)]
pub enum Format {
    /// A 64-bit Mach-O image, patched at offset 0.
    MachO64,
    /// A fat archive; `swap` says whether its words are byte-swapped.
    Fat { swap: bool },
}

/// The format that a magic number announces, or why it is refused.
pub open spec fn format_of(magic: u32) -> Result<Format, PatchError> {
    if magic == MH_MAGIC_64 {
        Ok(Format::MachO64)
    } else if magic == MH_MAGIC {
        Err(PatchError::UnsupportedFormat(magic))
    } else if magic == FAT_MAGIC {
        Ok(Format::Fat { swap: false })
    } else if magic == FAT_CIGAM {
        Ok(Format::Fat { swap: true })
    } else {
        Err(PatchError::UnknownMagic(magic))
    }
}

/// Classifies the magic number read from the first four bytes.
pub fn classify_magic(magic: u32) -> (r: Result<Format, PatchError>)
    ensures
        r == format_of(magic),
{
    if magic == MH_MAGIC_64 {
        Ok(Format::MachO64)
    } else if magic == MH_MAGIC {
        Err(PatchError::UnsupportedFormat(magic))
    } else if magic == FAT_MAGIC {
        Ok(Format::Fat { swap: false })
    } else if magic == FAT_CIGAM {
        Ok(Format::Fat { swap: true })
    } else {
        Err(PatchError::UnknownMagic(magic))
    }
}

/// What a patch did: the one insertion into a 64-bit image, or what was
/// done to a fat archive.
pub enum Report {
    MachO64(Insertion),
    Fat { swap: bool, outcome: FatOutcome },
}

/// Adds a `LC_LOAD_DYLIB` command for `path` (padded with zeros to a
/// multiple of 8) to the data of a 64-bit Mach-O file or to the chosen
/// images of a fat archive, as the magic number at its start says. On an
/// error nothing is written.
pub fn patch<D: Decider>(data: &mut Vec<u8>, path: &Vec<u8>, decider: &mut D) -> (r: Result<
    Report,
    PatchError,
>)
    requires
        path@.len() + 8 <= usize::MAX,
    ensures
        old(data)@.len() < 4 ==> r == Err::<Report, PatchError>(PatchError::TruncatedHeader)
            && final(data)@ == old(data)@,
        old(data)@.len() >= 4 ==> match format_of(le32(old(data)@, 0)) {
            Err(e) => r == Err::<Report, PatchError>(e) && final(data)@ == old(data)@,
            Ok(Format::MachO64) => match insert_spec(old(data)@, 0, padded_path(path@)) {
                Ok(t) => final(data)@ == t && r == Ok::<Report, PatchError>(
                    Report::MachO64(
                        Insertion {
                            base: 0,
                            offset: commands_end(old(data)@, 0) as u64,
                            cmdsize: command_size(padded_path(path@)) as u32,
                        },
                    ),
                ),
                Err(e) => r == Err::<Report, PatchError>(e) && final(data)@ == old(data)@,
            },
            Ok(Format::Fat { swap }) => match r {
                Ok(Report::Fat { swap: s, outcome }) => s == swap && fat_patched(
                    old(data)@,
                    final(data)@,
                    swap,
                    padded_path(path@),
                    outcome,
                ),
                Ok(Report::MachO64(_)) => false,
                Err(e) => fat_refused(old(data)@, final(data)@, swap, padded_path(path@), e),
            },
        },
{
    if data.len() < 4 {
        return Err(PatchError::TruncatedHeader);
    }
    let magic = read_u32_le(data, 0);
    let format = match classify_magic(magic) {
        Ok(f) => f,
        Err(e) => {
            return Err(e);
        },
    };
    let payload = pad_path(path);
    match format {
        Format::MachO64 => match insert_dylib(data, 0, &payload) {
            Ok(ins) => Ok(Report::MachO64(ins)),
            Err(e) => Err(e),
        },
        Format::Fat { swap } => match patch_fat(data, swap, &payload, decider) {
            Ok(outcome) => Ok(Report::Fat { swap, outcome }),
            Err(e) => Err(e),
        },
    }
}

} // verus!
