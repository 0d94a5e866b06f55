//! The fixed-layout records of the format: the 64-bit Mach-O header, the
//! dylib load command, the fat header and a fat architecture entry, each with
//! its decoding from bytes and, where the engine writes it, its encoding.
use vstd::prelude::*;
use crate::bytes::{
    le32, le_bytes, lemma_le_bytes_len, lemma_read_back, push_u32_le, read_u32_le, swap32, swapped,
};

verus! {

/// Size in bytes of an encoded `MachHeader64`.
pub const MACH_HEADER_64_SIZE: u64 = 32;

/// Size in bytes of an encoded `DylibCommand`, without its path.
pub const DYLIB_COMMAND_SIZE: u64 = 24;

/// Size in bytes of an encoded `FatHeader`.
pub const FAT_HEADER_SIZE: u64 = 8;

/// Size in bytes of an encoded `FatArch`.
pub const FAT_ARCH_SIZE: u64 = 20;

/// The load command tag of `LC_LOAD_DYLIB`.
pub const LC_LOAD_DYLIB: u32 = 0xc;

/// The header at the start of a 64-bit Mach-O image.
#[derive(Clone, Copy, Debug, PartialEq, Eq, Structural)]
pub struct MachHeader64 {
    pub magic: u32,
    pub cpu_type: i32,
    pub cpu_sub_type: i32,
    pub filetype: u32,
    pub ncmds: u32,
    pub sizeofcmds: u32,
    pub flags: u32,
    pub reserved: u32,
}

/// A `LC_LOAD_DYLIB` load command; the path follows it in the file.
#[derive(Clone, Copy, Debug, PartialEq, Eq, Structural)]
pub struct DylibCommand {
    pub cmd: u32,
    pub cmdsize: u32,
    pub name: u32,
    pub timestamp: u32,
    pub current_version: u32,
    pub compatibility_version: u32,
}

/// The header at the start of a fat archive.
#[derive(Clone, Copy, Debug, PartialEq, Eq, Structural)]
pub struct FatHeader {
    pub magic: u32,
    pub nfat_arch: u32,
}

/// One entry of a fat archive's architecture table.
#[derive(Clone, Copy, Debug, PartialEq, Eq, Structural)]
pub struct FatArch {
    pub cputype: u32,
    pub cpusubtype: u32,
    pub offset: u32,
    pub size: u32,
    pub align: u32,
}

/// The header stored little-endian at `s[at..at + 32]`.
pub open spec fn header_at(s: Seq<u8>, at: int) -> MachHeader64 {
    MachHeader64 {
        magic: le32(s, at),
        cpu_type: le32(s, at + 4) as i32,
        cpu_sub_type: le32(s, at + 8) as i32,
        filetype: le32(s, at + 12),
        ncmds: le32(s, at + 16),
        sizeofcmds: le32(s, at + 20),
        flags: le32(s, at + 24),
        reserved: le32(s, at + 28),
    }
}

/// The 32 bytes of `h`, each field little-endian.
pub open spec fn header_bytes(h: MachHeader64) -> Seq<u8> {
    le_bytes(h.magic) + le_bytes(h.cpu_type as u32) + le_bytes(h.cpu_sub_type as u32) + le_bytes(
        h.filetype,
    ) + le_bytes(h.ncmds) + le_bytes(h.sizeofcmds) + le_bytes(h.flags) + le_bytes(h.reserved)
}

/// The command stored little-endian at `s[at..at + 24]`.
pub open spec fn command_at(s: Seq<u8>, at: int) -> DylibCommand {
    DylibCommand {
        cmd: le32(s, at),
        cmdsize: le32(s, at + 4),
        name: le32(s, at + 8),
        timestamp: le32(s, at + 12),
        current_version: le32(s, at + 16),
        compatibility_version: le32(s, at + 20),
    }
}

/// The 24 bytes of `c`, each field little-endian.
pub open spec fn command_bytes(c: DylibCommand) -> Seq<u8> {
    le_bytes(c.cmd) + le_bytes(c.cmdsize) + le_bytes(c.name) + le_bytes(c.timestamp) + le_bytes(
        c.current_version,
    ) + le_bytes(c.compatibility_version)
}

/// The command that announces a path of `path_len` bytes: tag
/// `LC_LOAD_DYLIB`, the path right after the 24-byte record, zero timestamp
/// and versions.
pub open spec fn dylib_command_for(path_len: nat) -> DylibCommand {
    DylibCommand {
        cmd: LC_LOAD_DYLIB,
        cmdsize: (DYLIB_COMMAND_SIZE + path_len) as u32,
        name: DYLIB_COMMAND_SIZE as u32,
        timestamp: 0,
        current_version: 0,
        compatibility_version: 0,
    }
}

/// The fat header at the start of `s`, its count read in the declared order.
pub open spec fn fat_header_of(s: Seq<u8>, swap: bool) -> FatHeader {
    FatHeader { magic: le32(s, 0), nfat_arch: swapped(le32(s, 4), swap) }
}

/// The architecture entry at `s[at..at + 20]`, each field read in the
/// declared order.
pub open spec fn fat_arch_at(s: Seq<u8>, at: int, swap: bool) -> FatArch {
    FatArch {
        cputype: swapped(le32(s, at), swap),
        cpusubtype: swapped(le32(s, at + 4), swap),
        offset: swapped(le32(s, at + 8), swap),
        size: swapped(le32(s, at + 12), swap),
        align: swapped(le32(s, at + 16), swap),
    }
}

/// An encoded header is 32 bytes long.
pub proof fn lemma_header_bytes_len(h: MachHeader64)
    ensures
        header_bytes(h).len() == MACH_HEADER_64_SIZE,
{
    lemma_le_bytes_len(h.magic);
    lemma_le_bytes_len(h.cpu_type as u32);
    lemma_le_bytes_len(h.cpu_sub_type as u32);
    lemma_le_bytes_len(h.filetype);
    lemma_le_bytes_len(h.ncmds);
    lemma_le_bytes_len(h.sizeofcmds);
    lemma_le_bytes_len(h.flags);
    lemma_le_bytes_len(h.reserved);
}

/// An encoded command is 24 bytes long.
pub proof fn lemma_command_bytes_len(c: DylibCommand)
    ensures
        command_bytes(c).len() == DYLIB_COMMAND_SIZE,
{
    lemma_le_bytes_len(c.cmd);
    lemma_le_bytes_len(c.cmdsize);
    lemma_le_bytes_len(c.name);
    lemma_le_bytes_len(c.timestamp);
    lemma_le_bytes_len(c.current_version);
    lemma_le_bytes_len(c.compatibility_version);
}

/// A header stored at `at` decodes to itself.
pub proof fn lemma_header_round_trip(t: Seq<u8>, at: int, h: MachHeader64)
    requires
        0 <= at,
        at + MACH_HEADER_64_SIZE <= t.len(),
        t.subrange(at, at + MACH_HEADER_64_SIZE) == header_bytes(h),
    ensures
        header_at(t, at) == h,
{
    let b = header_bytes(h);
    let f = seq![
        h.magic,
        h.cpu_type as u32,
        h.cpu_sub_type as u32,
        h.filetype,
        h.ncmds,
        h.sizeofcmds,
        h.flags,
        h.reserved,
    ];
    assert forall|k: int| 0 <= k < 8 implies le32(t, at + 4 * k) == f[k] by {
        lemma_le_bytes_len(h.magic);
        lemma_le_bytes_len(h.cpu_type as u32);
        lemma_le_bytes_len(h.cpu_sub_type as u32);
        lemma_le_bytes_len(h.filetype);
        lemma_le_bytes_len(h.ncmds);
        lemma_le_bytes_len(h.sizeofcmds);
        lemma_le_bytes_len(h.flags);
        lemma_le_bytes_len(h.reserved);
        assert(b.subrange(4 * k, 4 * k + 4) =~= le_bytes(f[k]));
        lemma_read_back(t, at, b, 4 * k, f[k]);
    }
    let c = h.cpu_type;
    let d = h.cpu_sub_type;
    assert((c as u32) as i32 == c) by (bit_vector);
    assert((d as u32) as i32 == d) by (bit_vector);
    assert(le32(t, at + 4 * 0) == f[0]);
    assert(le32(t, at + 4 * 1) == f[1]);
    assert(le32(t, at + 4 * 2) == f[2]);
    assert(le32(t, at + 4 * 3) == f[3]);
    assert(le32(t, at + 4 * 4) == f[4]);
    assert(le32(t, at + 4 * 5) == f[5]);
    assert(le32(t, at + 4 * 6) == f[6]);
    assert(le32(t, at + 4 * 7) == f[7]);
}

/// A command stored at `at` decodes to itself.
pub proof fn lemma_command_round_trip(t: Seq<u8>, at: int, c: DylibCommand)
    requires
        0 <= at,
        at + DYLIB_COMMAND_SIZE <= t.len(),
        t.subrange(at, at + DYLIB_COMMAND_SIZE) == command_bytes(c),
    ensures
        command_at(t, at) == c,
{
    let b = command_bytes(c);
    let f = seq![
        c.cmd,
        c.cmdsize,
        c.name,
        c.timestamp,
        c.current_version,
        c.compatibility_version,
    ];
    assert forall|k: int| 0 <= k < 6 implies le32(t, at + 4 * k) == f[k] by {
        lemma_le_bytes_len(c.cmd);
        lemma_le_bytes_len(c.cmdsize);
        lemma_le_bytes_len(c.name);
        lemma_le_bytes_len(c.timestamp);
        lemma_le_bytes_len(c.current_version);
        lemma_le_bytes_len(c.compatibility_version);
        assert(b.subrange(4 * k, 4 * k + 4) =~= le_bytes(f[k]));
        lemma_read_back(t, at, b, 4 * k, f[k]);
    }
    assert(le32(t, at + 4 * 0) == f[0]);
    assert(le32(t, at + 4 * 1) == f[1]);
    assert(le32(t, at + 4 * 2) == f[2]);
    assert(le32(t, at + 4 * 3) == f[3]);
    assert(le32(t, at + 4 * 4) == f[4]);
    assert(le32(t, at + 4 * 5) == f[5]);
}

impl MachHeader64 {
    /// Decodes the header at `data[at..at + 32]`.
    pub fn decode(data: &Vec<u8>, at: usize) -> (r: MachHeader64)
        requires
            at + MACH_HEADER_64_SIZE <= data@.len(),
        ensures
            r == header_at(data@, at as int),
    {
        // the length of a vector fits in usize, and so do the field offsets
        let _len: usize = data.len();
        MachHeader64 {
            magic: read_u32_le(data, at),
            cpu_type: #[verifier::truncate] (read_u32_le(data, at + 4) as i32),
            cpu_sub_type: #[verifier::truncate] (read_u32_le(data, at + 8) as i32),
            filetype: read_u32_le(data, at + 12),
            ncmds: read_u32_le(data, at + 16),
            sizeofcmds: read_u32_le(data, at + 20),
            flags: read_u32_le(data, at + 24),
            reserved: read_u32_le(data, at + 28),
        }
    }

    /// Encodes the header as its 32 on-disk bytes.
    pub fn encode(&self) -> (r: Vec<u8>)
        ensures
            r@ == header_bytes(*self),
            r@.len() == MACH_HEADER_64_SIZE,
    {
        let mut out: Vec<u8> = Vec::new();
        push_u32_le(&mut out, self.magic);
        push_u32_le(&mut out, #[verifier::truncate] (self.cpu_type as u32));
        push_u32_le(&mut out, #[verifier::truncate] (self.cpu_sub_type as u32));
        push_u32_le(&mut out, self.filetype);
        push_u32_le(&mut out, self.ncmds);
        push_u32_le(&mut out, self.sizeofcmds);
        push_u32_le(&mut out, self.flags);
        push_u32_le(&mut out, self.reserved);
        out
    }
}

impl DylibCommand {
    /// The command announcing a path of `path_len` bytes that follows it.
    pub fn for_path_len(path_len: u32) -> (r: DylibCommand)
        requires
            DYLIB_COMMAND_SIZE + path_len <= u32::MAX,
        ensures
            r == dylib_command_for(path_len as nat),
    {
        DylibCommand {
            cmd: LC_LOAD_DYLIB,
            cmdsize: DYLIB_COMMAND_SIZE as u32 + path_len,
            name: DYLIB_COMMAND_SIZE as u32,
            timestamp: 0,
            current_version: 0,
            compatibility_version: 0,
        }
    }

    /// Decodes the command at `data[at..at + 24]`.
    pub fn decode(data: &Vec<u8>, at: usize) -> (r: DylibCommand)
        requires
            at + DYLIB_COMMAND_SIZE <= data@.len(),
        ensures
            r == command_at(data@, at as int),
    {
        let _len: usize = data.len();
        DylibCommand {
            cmd: read_u32_le(data, at),
            cmdsize: read_u32_le(data, at + 4),
            name: read_u32_le(data, at + 8),
            timestamp: read_u32_le(data, at + 12),
            current_version: read_u32_le(data, at + 16),
            compatibility_version: read_u32_le(data, at + 20),
        }
    }

    /// Encodes the command as its 24 on-disk bytes.
    pub fn encode(&self) -> (r: Vec<u8>)
        ensures
            r@ == command_bytes(*self),
            r@.len() == DYLIB_COMMAND_SIZE,
    {
        let mut out: Vec<u8> = Vec::new();
        push_u32_le(&mut out, self.cmd);
        push_u32_le(&mut out, self.cmdsize);
        push_u32_le(&mut out, self.name);
        push_u32_le(&mut out, self.timestamp);
        push_u32_le(&mut out, self.current_version);
        push_u32_le(&mut out, self.compatibility_version);
        out
    }
}

impl FatHeader {
    /// Decodes the fat header at the start of `data`; `swap` says whether
    /// the archive's byte order is the reverse of the file's reading order.
    pub fn decode(data: &Vec<u8>, swap: bool) -> (r: FatHeader)
        requires
            FAT_HEADER_SIZE <= data@.len(),
        ensures
            r == fat_header_of(data@, swap),
    {
        FatHeader { magic: read_u32_le(data, 0), nfat_arch: swap32(read_u32_le(data, 4), swap) }
    }
}

impl FatArch {
    /// Decodes the architecture entry at `data[at..at + 20]`.
    pub fn decode(data: &Vec<u8>, at: usize, swap: bool) -> (r: FatArch)
        requires
            at + FAT_ARCH_SIZE <= data@.len(),
        ensures
            r == fat_arch_at(data@, at as int, swap),
    {
        let _len: usize = data.len();
        FatArch {
            cputype: swap32(read_u32_le(data, at), swap),
            cpusubtype: swap32(read_u32_le(data, at + 4), swap),
            offset: swap32(read_u32_le(data, at + 8), swap),
            size: swap32(read_u32_le(data, at + 12), swap),
            align: swap32(read_u32_le(data, at + 16), swap),
        }
    }
}

} // verus!
