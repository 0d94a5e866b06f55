//! The insertion engine: appends a `LC_LOAD_DYLIB` command after the last
//! load command of the 64-bit image at a base offset, and updates the
//! image's header to count it.
use vstd::prelude::*;
use crate::bytes::{lemma_overwrite_index, lemma_overwrite_len, overwrite, push_all, write_bytes};
use crate::error::PatchError;
use crate::layout::{
    command_at, command_bytes, dylib_command_for, header_at, header_bytes,
    lemma_command_bytes_len, lemma_command_round_trip, lemma_header_bytes_len,
    lemma_header_round_trip, DylibCommand, MachHeader64, DYLIB_COMMAND_SIZE, LC_LOAD_DYLIB,
    MACH_HEADER_64_SIZE,
};

verus! {

/// Where one command went: the image's base offset, the offset of the new
/// command in the data, and the command's size.
#[derive(Clone, Copy, Debug, PartialEq, Eq, Structural)]
pub struct Insertion {
    pub base: u64,
    pub offset: u64,
    pub cmdsize: u32,
}

/// `path` followed by one to eight zero bytes, so that its length is a
/// multiple of 8 and at least one terminating zero is present.
pub open spec fn padded_path(path: Seq<u8>) -> Seq<u8> {
    path + Seq::new((8 - path.len() % 8) as nat, |i: int| 0u8)
}

/// The bytes of `s` from `at` for `n` bytes, as far as `s` goes, are all
/// zero, and `at` is not past the end of `s`.
pub open spec fn has_slack(s: Seq<u8>, at: int, n: int) -> bool {
    &&& at <= s.len()
    &&& forall|i: int| at <= i < at + n && i < s.len() ==> s[i] == 0
}

/// The offset just past the load commands of the image at `base`.
pub open spec fn commands_end(s: Seq<u8>, base: int) -> int {
    base + MACH_HEADER_64_SIZE + header_at(s, base).sizeofcmds
}

/// `h` counting one more command of `cmdsize` bytes.
pub open spec fn header_with_command(h: MachHeader64, cmdsize: int) -> MachHeader64 {
    MachHeader64 {
        ncmds: (h.ncmds + 1) as u32,
        sizeofcmds: (h.sizeofcmds + cmdsize) as u32,
        ..h
    }
}

/// The size of the command that carries `payload`.
pub open spec fn command_size(payload: Seq<u8>) -> int {
    DYLIB_COMMAND_SIZE + payload.len()
}

/// The data after inserting the command carrying `payload` into the image
/// at `base`, or why that is refused.
#[verifier::opaque]
pub open spec fn insert_spec(s: Seq<u8>, base: int, payload: Seq<u8>) -> Result<
    Seq<u8>,
    PatchError,
> {
    if base + MACH_HEADER_64_SIZE > s.len() {
        Err(PatchError::TruncatedHeader)
    } else {
        let h = header_at(s, base);
        let cmdsize = command_size(payload);
        let at = commands_end(s, base);
        if h.ncmds + 1 > u32::MAX || h.sizeofcmds + cmdsize > u32::MAX || at + cmdsize
            > usize::MAX || !has_slack(s, at, cmdsize) {
            Err(PatchError::Inconsistent)
        } else {
            Ok(
                overwrite(
                    overwrite(s, at, command_bytes(dylib_command_for(payload.len())) + payload),
                    base,
                    header_bytes(header_with_command(h, cmdsize)),
                ),
            )
        }
    }
}

/// `p` without its trailing zero bytes.
pub open spec fn trim_zeros(p: Seq<u8>) -> Seq<u8>
    decreases p.len(),
{
    if p.len() > 0 && p.last() == 0 {
        trim_zeros(p.drop_last())
    } else {
        p
    }
}

/// The path named by the `LC_LOAD_DYLIB` command at `at`, without its zero
/// padding; `None` where no well-formed such command lies there.
pub open spec fn command_path(s: Seq<u8>, at: int) -> Option<Seq<u8>> {
    if 0 <= at && at + DYLIB_COMMAND_SIZE <= s.len() {
        let c = command_at(s, at);
        if c.cmd == LC_LOAD_DYLIB && DYLIB_COMMAND_SIZE <= c.name <= c.cmdsize && at + c.cmdsize
            <= s.len() {
            Some(trim_zeros(s.subrange(at + c.name, at + c.cmdsize)))
        } else {
            None
        }
    } else {
        None
    }
}

/// Pads a library path with one to eight zero bytes to a multiple of 8.
pub fn pad_path(path: &Vec<u8>) -> (r: Vec<u8>)
    requires
        path@.len() + 8 <= usize::MAX,
    ensures
        r@ == padded_path(path@),
{
    let mut out: Vec<u8> = Vec::new();
    push_all(&mut out, path);
    let extra: usize = 8 - path.len() % 8;
    let mut k: usize = 0;
    while k < extra
        invariant
            extra == 8 - path@.len() % 8,
            k <= extra,
            out@ == path@ + Seq::new(k as nat, |i: int| 0u8),
        decreases extra - k,
    {
        out.push(0u8);
        k = k + 1;
        assert(out@ =~= path@ + Seq::new(k as nat, |i: int| 0u8));
    }
    assert(out@ =~= Seq::empty() + path@ + Seq::new(extra as nat, |i: int| 0u8));
    out
}

/// Whether the bytes of `data` from `at` for `n` bytes, as far as `data`
/// goes, are all zero.
fn is_free(data: &Vec<u8>, at: usize, n: usize) -> (r: bool)
    requires
        at <= data@.len(),
    ensures
        r == has_slack(data@, at as int, n as int),
{
    let mut i: usize = at;
    while i < data.len() && i - at < n
        invariant
            at <= i <= data@.len(),
            i - at <= n,
            forall|j: int| at <= j < i ==> data@[j] == 0,
        decreases data@.len() - i,
    {
        if data[i] != 0 {
            return false;
        }
        i = i + 1;
    }
    true
}

/// Inserts a `LC_LOAD_DYLIB` command for `payload` (a padded path) into the
/// 64-bit image whose header is at `base`: the command goes right after the
/// image's last load command, and the header then counts it. The bytes it
/// goes over must be zero, and the grown data must fit in memory. On an
/// error nothing is written.
pub fn insert_dylib(data: &mut Vec<u8>, base: u64, payload: &Vec<u8>) -> (r: Result<
    Insertion,
    PatchError,
>)
    ensures
        match r {
            Ok(ins) => {
                &&& insert_spec(old(data)@, base as int, payload@) == Ok::<Seq<u8>, PatchError>(
                    final(data)@,
                )
                &&& ins.base == base
                &&& ins.offset == commands_end(old(data)@, base as int)
                &&& ins.cmdsize == command_size(payload@)
            },
            Err(e) => {
                &&& insert_spec(old(data)@, base as int, payload@) == Err::<Seq<u8>, PatchError>(
                    e,
                )
                &&& final(data)@ == old(data)@
            },
        },
{
    reveal(insert_spec);
    let len: u64 = data.len() as u64;
    if base > len || len - base < MACH_HEADER_64_SIZE {
        return Err(PatchError::TruncatedHeader);
    }
    let header = MachHeader64::decode(data, base as usize);
    let plen: usize = payload.len();
    if header.ncmds == u32::MAX || plen as u64 > u32::MAX as u64 - DYLIB_COMMAND_SIZE {
        return Err(PatchError::Inconsistent);
    }
    let cmdsize: u32 = DYLIB_COMMAND_SIZE as u32 + plen as u32;
    if header.sizeofcmds > u32::MAX - cmdsize {
        return Err(PatchError::Inconsistent);
    }
    if header.sizeofcmds as u64 > len - base - MACH_HEADER_64_SIZE {
        return Err(PatchError::Inconsistent);
    }
    let at: u64 = base + MACH_HEADER_64_SIZE + header.sizeofcmds as u64;
    if at > usize::MAX as u64 - cmdsize as u64 {
        return Err(PatchError::Inconsistent);
    }
    let start: usize = at as usize;
    if !is_free(data, start, cmdsize as usize) {
        return Err(PatchError::Inconsistent);
    }
    // the command goes in first, then the header that announces it
    let command = DylibCommand::for_path_len(plen as u32);
    let mut bytes = command.encode();
    push_all(&mut bytes, payload);
    write_bytes(data, start, &bytes);
    let updated = MachHeader64 {
        ncmds: header.ncmds + 1,
        sizeofcmds: header.sizeofcmds + cmdsize,
        ..header
    };
    let header_bytes = updated.encode();
    write_bytes(data, base as usize, &header_bytes);
    Ok(Insertion { base, offset: at, cmdsize })
}

/// Reads back the path of the `LC_LOAD_DYLIB` command at `at`, without its
/// zero padding.
pub fn read_dylib_path(data: &Vec<u8>, at: u64) -> (r: Option<Vec<u8>>)
    ensures
        match r {
            Some(p) => command_path(data@, at as int) == Some(p@),
            None => command_path(data@, at as int) is None,
        },
{
    let len: usize = data.len();
    if at > len as u64 || (len as u64) - at < DYLIB_COMMAND_SIZE {
        return None;
    }
    let start: usize = at as usize;
    let c = DylibCommand::decode(data, start);
    if c.cmd != LC_LOAD_DYLIB || (c.name as u64) < DYLIB_COMMAND_SIZE || c.name > c.cmdsize
        || c.cmdsize as u64 > (len as u64) - at {
        return None;
    }
    let from: usize = start + c.name as usize;
    let mut to: usize = start + c.cmdsize as usize;
    while to > from && data[to - 1] == 0
        invariant
            from <= to <= start + c.cmdsize <= data@.len(),
            trim_zeros(data@.subrange(from as int, start + c.cmdsize)) == trim_zeros(
                data@.subrange(from as int, to as int),
            ),
        decreases to,
    {
        assert(data@.subrange(from as int, to as int).drop_last() =~= data@.subrange(
            from as int,
            to - 1,
        ));
        to = to - 1;
    }
    assert(trim_zeros(data@.subrange(from as int, to as int)) == data@.subrange(
        from as int,
        to as int,
    ));
    let mut out: Vec<u8> = Vec::new();
    let mut k: usize = from;
    while k < to
        invariant
            from <= k <= to <= data@.len(),
            out@ == data@.subrange(from as int, k as int),
        decreases to - k,
    {
        out.push(data[k]);
        k = k + 1;
        assert(out@ =~= data@.subrange(from as int, k as int));
    }
    Some(out)
}

/// Every padded path gives a command whose size is a multiple of 8.
pub proof fn lemma_command_size_aligned(path: Seq<u8>)
    ensures
        padded_path(path).len() % 8 == 0,
        command_size(padded_path(path)) % 8 == 0,
        padded_path(path).len() > path.len(),
{
}

/// After an insertion the header counts one more command and its new size,
/// the new command and its path lie right after the commands that were
/// there, and every other byte is as it was.
pub proof fn lemma_insert_layout(s: Seq<u8>, base: int, payload: Seq<u8>, t: Seq<u8>)
    requires
        0 <= base,
        insert_spec(s, base, payload) == Ok::<Seq<u8>, PatchError>(t),
    ensures
        header_at(t, base).ncmds == header_at(s, base).ncmds + 1,
        header_at(t, base).sizeofcmds == header_at(s, base).sizeofcmds + command_size(payload),
        header_at(t, base) == header_with_command(header_at(s, base), command_size(payload)),
        commands_end(t, base) == commands_end(s, base) + command_size(payload),
        commands_end(s, base) + command_size(payload) <= t.len(),
        command_at(t, commands_end(s, base)) == dylib_command_for(payload.len()),
        t.subrange(
            commands_end(s, base) + DYLIB_COMMAND_SIZE,
            commands_end(s, base) + command_size(payload),
        ) == payload,
        forall|i: int|
            0 <= i < t.len() && !(base <= i < base + MACH_HEADER_64_SIZE) && !(commands_end(
                s,
                base,
            ) <= i < commands_end(s, base) + command_size(payload)) ==> i < s.len() && t[i]
                == s[i],
{
    reveal(insert_spec);
    let h = header_at(s, base);
    let n = command_size(payload);
    let at = commands_end(s, base);
    let c = dylib_command_for(payload.len());
    let w = command_bytes(c) + payload;
    let h2 = header_with_command(h, n);
    let hb = header_bytes(h2);
    let u = overwrite(s, at, w);
    lemma_command_bytes_len(c);
    lemma_header_bytes_len(h2);
    lemma_overwrite_len(s, at, w);
    lemma_overwrite_len(u, base, hb);
    assert(t == overwrite(u, base, hb));
    assert forall|i: int| 0 <= i < t.len() implies t[i] == (if base <= i < base + 32 {
        hb[i - base]
    } else if at <= i < at + n {
        w[i - at]
    } else {
        s[i]
    }) by {
        lemma_overwrite_index(u, base, hb, i);
        if !(base <= i < base + 32) {
            lemma_overwrite_index(s, at, w, i);
        }
    }
    assert(t.subrange(base, base + 32) =~= hb);
    lemma_header_round_trip(t, base, h2);
    assert(t.subrange(at, at + 24) =~= command_bytes(c));
    lemma_command_round_trip(t, at, c);
    assert(t.subrange(at + 24, at + n) =~= payload);
}

/// `p` followed by zero bytes trims back to `p` when `p` does not itself
/// end in a zero byte.
proof fn lemma_trim_padding(p: Seq<u8>, n: nat)
    requires
        p.len() == 0 || p.last() != 0,
    ensures
        trim_zeros(p + Seq::new(n, |i: int| 0u8)) == p,
    decreases n,
{
    if n == 0 {
        assert(p + Seq::new(0, |i: int| 0u8) =~= p);
    } else {
        let q = p + Seq::new(n, |i: int| 0u8);
        assert(q.drop_last() =~= p + Seq::new((n - 1) as nat, |i: int| 0u8));
        lemma_trim_padding(p, (n - 1) as nat);
    }
}

/// Inserting a padded path and reading back the command where it went gives
/// the path again, for any path that does not end in a zero byte.
pub proof fn lemma_path_round_trip(s: Seq<u8>, base: int, path: Seq<u8>, t: Seq<u8>)
    requires
        0 <= base,
        path.len() == 0 || path.last() != 0,
        insert_spec(s, base, padded_path(path)) == Ok::<Seq<u8>, PatchError>(t),
    ensures
        command_path(t, commands_end(s, base)) == Some(path),
{
    let payload = padded_path(path);
    lemma_insert_layout(s, base, payload, t);
    lemma_trim_padding(path, (8 - path.len() % 8) as nat);
}

/// Inserting twice leaves two commands, one right after the other, and a
/// header that counts both.
pub proof fn lemma_insert_twice(
    s: Seq<u8>,
    base: int,
    payload: Seq<u8>,
    t1: Seq<u8>,
    t2: Seq<u8>,
)
    requires
        0 <= base,
        insert_spec(s, base, payload) == Ok::<Seq<u8>, PatchError>(t1),
        insert_spec(t1, base, payload) == Ok::<Seq<u8>, PatchError>(t2),
    ensures
        header_at(t2, base).ncmds == header_at(s, base).ncmds + 2,
        header_at(t2, base).sizeofcmds == header_at(s, base).sizeofcmds + 2 * command_size(
            payload,
        ),
        command_at(t2, commands_end(s, base)) == dylib_command_for(payload.len()),
        command_at(t2, commands_end(s, base) + command_size(payload)) == dylib_command_for(
            payload.len(),
        ),
        t2.subrange(
            commands_end(s, base) + DYLIB_COMMAND_SIZE,
            commands_end(s, base) + command_size(payload),
        ) == payload,
        t2.subrange(
            commands_end(s, base) + command_size(payload) + DYLIB_COMMAND_SIZE,
            commands_end(s, base) + 2 * command_size(payload),
        ) == payload,
{
    lemma_insert_layout(s, base, payload, t1);
    lemma_insert_layout(t1, base, payload, t2);
    let at = commands_end(s, base);
    let n = command_size(payload);
    assert(t2.subrange(at, at + n) =~= t1.subrange(at, at + n));
    lemma_command_bytes_len(dylib_command_for(payload.len()));
    assert(t1.subrange(at, at + 24) =~= t1.subrange(at, at + n).subrange(0, 24));
    assert(t2.subrange(at, at + 24) =~= t1.subrange(at, at + n).subrange(0, 24));
    assert(command_at(t2, at) == command_at(t1, at));
    assert(t2.subrange(at + 24, at + n) =~= t1.subrange(at + 24, at + n));
}

} // verus!
