//! The fat archive walker: reads the architecture table, refuses any
//! architecture other than x86-64 and arm64 before anything is written, asks
//! which architectures to patch and patches each one's embedded image.
use vstd::prelude::*;
use crate::bytes::push_all;
use crate::engine::{
    command_size, commands_end, header_with_command, insert_dylib, insert_spec, lemma_insert_layout,
    Insertion,
};
use crate::error::PatchError;
use crate::layout::{
    fat_arch_at, fat_header_of, header_at, FatArch, FatHeader, FAT_ARCH_SIZE, FAT_HEADER_SIZE,
};

verus! {

/// The CPU type of x86-64.
pub const CPU_TYPE_X86_64: u32 = 0x100_0007;

/// The CPU type of arm64.
pub const CPU_TYPE_ARM64: u32 = 0x100_000c;

/// The architectures whose images can be patched.
#[derive(Clone, Copy, Debug, PartialEq, Eq, Structural)]
pub enum CpuKind {
    X86_64,
    Arm64,
}

/// The supported architecture of a CPU type, if it has one.
pub open spec fn cpu_kind_of(cputype: u32) -> Option<CpuKind> {
    if cputype == CPU_TYPE_X86_64 {
        Some(CpuKind::X86_64)
    } else if cputype == CPU_TYPE_ARM64 {
        Some(CpuKind::Arm64)
    } else {
        None
    }
}

/// Classifies a CPU type against the supported architectures.
pub fn cpu_kind(cputype: u32) -> (r: Option<CpuKind>)
    ensures
        r == cpu_kind_of(cputype),
{
    if cputype == CPU_TYPE_X86_64 {
        Some(CpuKind::X86_64)
    } else if cputype == CPU_TYPE_ARM64 {
        Some(CpuKind::Arm64)
    } else {
        None
    }
}

/// The `i`-th entry of the architecture table.
pub open spec fn arch_entry(s: Seq<u8>, i: int, swap: bool) -> FatArch {
    fat_arch_at(s, FAT_HEADER_SIZE + FAT_ARCH_SIZE * i, swap)
}

/// Entry `i` is the first of the table whose CPU type is not supported.
pub open spec fn first_unsupported(s: Seq<u8>, swap: bool, n: int, i: int) -> bool {
    &&& 0 <= i < n
    &&& cpu_kind_of(arch_entry(s, i, swap).cputype) is None
    &&& forall|j: int| 0 <= j < i ==> cpu_kind_of(arch_entry(s, j, swap).cputype) is Some
}

/// The architecture table of the fat archive in `s`, or why it is refused:
/// a short header or table, an empty table, or (for the first offending
/// entry) an unsupported CPU type.
#[verifier::opaque]
pub open spec fn parse_fat_spec(s: Seq<u8>, swap: bool) -> Result<Seq<FatArch>, PatchError> {
    if s.len() < FAT_HEADER_SIZE {
        Err(PatchError::TruncatedHeader)
    } else {
        let n = fat_header_of(s, swap).nfat_arch as int;
        if n == 0 {
            Err(PatchError::NoArchitectures)
        } else if FAT_HEADER_SIZE + FAT_ARCH_SIZE * n > s.len() {
            Err(PatchError::TruncatedHeader)
        } else if exists|i: int| first_unsupported(s, swap, n, i) {
            let i = choose|i: int| first_unsupported(s, swap, n, i);
            Err(PatchError::UnsupportedArchitecture(arch_entry(s, i, swap).cputype))
        } else {
            Ok(Seq::new(n as nat, |i: int| arch_entry(s, i, swap)))
        }
    }
}

/// Reads and checks the architecture table of the fat archive in `data`;
/// `swap` says whether its words are stored in the reverse of the reading
/// order.
pub fn parse_fat(data: &Vec<u8>, swap: bool) -> (r: Result<Vec<FatArch>, PatchError>)
    ensures
        match r {
            Ok(archs) => {
                &&& parse_fat_spec(data@, swap) == Ok::<Seq<FatArch>, PatchError>(archs@)
                &&& 1 <= archs@.len() <= u32::MAX
            },
            Err(e) => parse_fat_spec(data@, swap) == Err::<Seq<FatArch>, PatchError>(e),
        },
{
    reveal(parse_fat_spec);
    let len: usize = data.len();
    if (len as u64) < FAT_HEADER_SIZE {
        return Err(PatchError::TruncatedHeader);
    }
    let header = FatHeader::decode(data, swap);
    let n: u32 = header.nfat_arch;
    if n == 0 {
        return Err(PatchError::NoArchitectures);
    }
    if FAT_ARCH_SIZE * (n as u64) > len as u64 - FAT_HEADER_SIZE {
        return Err(PatchError::TruncatedHeader);
    }
    let mut archs: Vec<FatArch> = Vec::new();
    let mut i: u32 = 0;
    while i < n
        invariant
            n == fat_header_of(data@, swap).nfat_arch,
            len == data@.len(),
            FAT_HEADER_SIZE + FAT_ARCH_SIZE * n <= data@.len(),
            i <= n,
            archs@ == Seq::new(i as nat, |k: int| arch_entry(data@, k, swap)),
            forall|k: int| 0 <= k < i ==> cpu_kind_of(arch_entry(data@, k, swap).cputype) is Some,
        decreases n - i,
    {
        assert(FAT_HEADER_SIZE + FAT_ARCH_SIZE * i + FAT_ARCH_SIZE <= data@.len()) by (
        nonlinear_arith)
            requires
                FAT_HEADER_SIZE + FAT_ARCH_SIZE * n <= data@.len(),
                i < n,
        ;
        let at: usize = (FAT_HEADER_SIZE + FAT_ARCH_SIZE * (i as u64)) as usize;
        let arch = FatArch::decode(data, at, swap);
        if cpu_kind(arch.cputype).is_none() {
            proof {
                assert(arch == arch_entry(data@, i as int, swap));
                assert(first_unsupported(data@, swap, n as int, i as int));
                let j = choose|j: int| first_unsupported(data@, swap, n as int, j);
                assert(j == i) by {
                    if j > i {
                        assert(cpu_kind_of(arch_entry(data@, i as int, swap).cputype) is Some);
                    }
                }
                reveal(parse_fat_spec);
                assert(exists|k: int| first_unsupported(data@, swap, n as int, k));
                assert(!(FAT_HEADER_SIZE + FAT_ARCH_SIZE * n > data@.len()));
                assert(data@.len() >= FAT_HEADER_SIZE);
                assert(fat_header_of(data@, swap).nfat_arch == n);
                assert(parse_fat_spec(data@, swap) == Err::<Seq<FatArch>, PatchError>(
                    PatchError::UnsupportedArchitecture(arch.cputype),
                ));
            }
            return Err(PatchError::UnsupportedArchitecture(arch.cputype));
        }
        archs.push(arch);
        i = i + 1;
        assert(archs@ =~= Seq::new(i as nat, |k: int| arch_entry(data@, k, swap)));
    }
    assert forall|j: int| !first_unsupported(data@, swap, n as int, j) by {
    }
    Ok(archs)
}

/// A question put to the caller while patching a fat archive.
#[derive(Clone, Copy, Debug, PartialEq, Eq, Structural)]
pub enum Question {
    /// The archive holds `count` architectures: patch all of them?
    ApplyToAll { count: u32 },
    /// Patch the architecture at `index` of the table, of CPU type `cputype`?
    PatchArch { index: u32, cputype: u32 },
}

/// Answers the questions put while patching a fat archive; an "always yes"
/// answerer patches every architecture without asking anyone.
pub trait Decider {
    fn confirm(&mut self, question: Question) -> bool;
}

/// What patching a fat archive did: its architecture table, the answer to
/// "patch all?" where that was asked, and for each architecture the
/// insertion made into its image, or `None` where it was skipped.
pub struct FatOutcome {
    pub archs: Vec<FatArch>,
    pub apply_all: Option<bool>,
    pub insertions: Vec<Option<Insertion>>,
}

/// Which architectures a list of per-architecture results patched.
pub open spec fn chosen(ins: Seq<Option<Insertion>>) -> Seq<bool> {
    Seq::new(ins.len(), |i: int| ins[i] is Some)
}

/// The data after patching, in table order, the image of each of the first
/// `k` architectures that `sel` picks, or the first refusal.
pub open spec fn patch_archs(
    s: Seq<u8>,
    archs: Seq<FatArch>,
    sel: Seq<bool>,
    k: int,
    payload: Seq<u8>,
) -> Result<Seq<u8>, PatchError>
    decreases k,
{
    if k <= 0 {
        Ok(s)
    } else {
        match patch_archs(s, archs, sel, k - 1, payload) {
            Ok(t) => if sel[k - 1] {
                insert_spec(t, archs[k - 1].offset as int, payload)
            } else {
                Ok(t)
            },
            Err(e) => Err(e),
        }
    }
}

/// The insertion made into the image of architecture `k`, once the
/// architectures before it have been patched.
pub open spec fn expected_insertion(
    s: Seq<u8>,
    archs: Seq<FatArch>,
    sel: Seq<bool>,
    k: int,
    payload: Seq<u8>,
) -> Insertion {
    Insertion {
        base: archs[k].offset as u64,
        offset: commands_end(
            patch_archs(s, archs, sel, k, payload)->Ok_0,
            archs[k].offset as int,
        ) as u64,
        cmdsize: command_size(payload) as u32,
    }
}

/// `t` is what patching the fat archive `s` made of it, as `out` reports:
/// the table was accepted, one architecture was patched without asking,
/// all were patched unless "patch all?" was declined, and each chosen image
/// was patched in table order.
pub open spec fn fat_patched(
    s: Seq<u8>,
    t: Seq<u8>,
    swap: bool,
    payload: Seq<u8>,
    out: FatOutcome,
) -> bool {
    &&& parse_fat_spec(s, swap) == Ok::<Seq<FatArch>, PatchError>(out.archs@)
    &&& out.insertions@.len() == out.archs@.len()
    &&& (out.apply_all is None <==> out.archs@.len() == 1)
    &&& (out.apply_all != Some(false) ==> forall|i: int|
        0 <= i < out.insertions@.len() ==> out.insertions@[i] is Some)
    &&& patch_archs(s, out.archs@, chosen(out.insertions@), out.archs@.len() as int, payload)
        == Ok::<Seq<u8>, PatchError>(t)
    &&& forall|i: int|
        0 <= i < out.insertions@.len() && out.insertions@[i] is Some ==> out.insertions@[i]
            == Some(expected_insertion(s, out.archs@, chosen(out.insertions@), i, payload))
}

/// Patching the fat archive `s` was refused with `e` and left it as `t`:
/// unchanged, refused for its table, or else for an image that some choice
/// of architectures led to.
pub open spec fn fat_refused(s: Seq<u8>, t: Seq<u8>, swap: bool, payload: Seq<u8>, e: PatchError) -> bool {
    &&& t == s
    &&& match parse_fat_spec(s, swap) {
        Err(pe) => e == pe,
        Ok(archs) => exists|sel: Seq<bool>|
            sel.len() == archs.len() && patch_archs(s, archs, sel, archs.len() as int, payload)
                == Err::<Seq<u8>, PatchError>(e),
    }
}

/// An archive whose table is empty is refused with `NoArchitectures`.
pub proof fn lemma_empty_table_refused(s: Seq<u8>, swap: bool)
    requires
        s.len() >= FAT_HEADER_SIZE,
        fat_header_of(s, swap).nfat_arch == 0,
    ensures
        parse_fat_spec(s, swap) == Err::<Seq<FatArch>, PatchError>(PatchError::NoArchitectures),
{
    reveal(parse_fat_spec);
}

/// An archive with a complete table that holds an unsupported CPU type is
/// refused with `UnsupportedArchitecture`, naming the first such type.
pub proof fn lemma_unsupported_refused(s: Seq<u8>, swap: bool, i: int)
    requires
        s.len() >= FAT_HEADER_SIZE,
        FAT_HEADER_SIZE + FAT_ARCH_SIZE * fat_header_of(s, swap).nfat_arch <= s.len(),
        0 <= i < fat_header_of(s, swap).nfat_arch,
        cpu_kind_of(arch_entry(s, i, swap).cputype) is None,
    ensures
        exists|j: int|
            0 <= j <= i && cpu_kind_of(arch_entry(s, j, swap).cputype) is None && parse_fat_spec(
                s,
                swap,
            ) == Err::<Seq<FatArch>, PatchError>(
                PatchError::UnsupportedArchitecture(arch_entry(s, j, swap).cputype),
            ),
{
    reveal(parse_fat_spec);
    let n = fat_header_of(s, swap).nfat_arch as int;
    lemma_first_unsupported_exists(s, swap, n, i);
    let j = choose|j: int| first_unsupported(s, swap, n, j);
    if j > i {
        assert(cpu_kind_of(arch_entry(s, i, swap).cputype) is Some);
    }
}

/// Where some entry below `n` is unsupported, there is a first one.
proof fn lemma_first_unsupported_exists(s: Seq<u8>, swap: bool, n: int, i: int)
    requires
        0 <= i < n,
        cpu_kind_of(arch_entry(s, i, swap).cputype) is None,
    ensures
        exists|j: int| first_unsupported(s, swap, n, j),
    decreases i,
{
    if forall|j: int| 0 <= j < i ==> cpu_kind_of(arch_entry(s, j, swap).cputype) is Some {
        assert(first_unsupported(s, swap, n, i));
    } else {
        let k = choose|k: int|
            0 <= k < i && !(cpu_kind_of(arch_entry(s, k, swap).cputype) is Some);
        lemma_first_unsupported_exists(s, swap, n, k);
    }
}

/// Of a fat archive with two architectures where "patch all?" was answered
/// yes, both images are patched: the first at its entry's offset, then the
/// second at its own, each header counting the new command.
pub proof fn lemma_two_archs_all_patched(
    s: Seq<u8>,
    t: Seq<u8>,
    swap: bool,
    payload: Seq<u8>,
    out: FatOutcome,
)
    requires
        fat_patched(s, t, swap, payload, out),
        out.archs@.len() == 2,
        out.apply_all == Some(true),
    ensures
        exists|t1: Seq<u8>|
            {
                &&& insert_spec(s, out.archs@[0].offset as int, payload) == Ok::<
                    Seq<u8>,
                    PatchError,
                >(t1)
                &&& insert_spec(t1, out.archs@[1].offset as int, payload) == Ok::<
                    Seq<u8>,
                    PatchError,
                >(t)
                &&& header_at(t1, out.archs@[0].offset as int) == header_with_command(
                    header_at(s, out.archs@[0].offset as int),
                    command_size(payload),
                )
                &&& header_at(t, out.archs@[1].offset as int) == header_with_command(
                    header_at(t1, out.archs@[1].offset as int),
                    command_size(payload),
                )
            },
{
    let sel = chosen(out.insertions@);
    assert(sel[0] && sel[1]);
    let t1 = patch_archs(s, out.archs@, sel, 1, payload)->Ok_0;
    assert(patch_archs(s, out.archs@, sel, 0, payload) == Ok::<Seq<u8>, PatchError>(s));
    lemma_insert_layout(s, out.archs@[0].offset as int, payload, t1);
    lemma_insert_layout(t1, out.archs@[1].offset as int, payload, t);
}

/// Patching the first `k` architectures depends only on the first `k`
/// choices.
pub proof fn lemma_patch_archs_prefix(
    s: Seq<u8>,
    archs: Seq<FatArch>,
    a: Seq<bool>,
    b: Seq<bool>,
    k: int,
    payload: Seq<u8>,
)
    requires
        forall|j: int| 0 <= j < k ==> a[j] == b[j],
    ensures
        patch_archs(s, archs, a, k, payload) == patch_archs(s, archs, b, k, payload),
    decreases k,
{
    if k > 0 {
        lemma_patch_archs_prefix(s, archs, a, b, k - 1, payload);
    }
}

/// Once patching is refused, patching further architectures is refused
/// for the same reason.
pub proof fn lemma_patch_archs_error_sticks(
    s: Seq<u8>,
    archs: Seq<FatArch>,
    sel: Seq<bool>,
    k: int,
    m: int,
    payload: Seq<u8>,
)
    requires
        k <= m,
        patch_archs(s, archs, sel, k, payload) is Err,
    ensures
        patch_archs(s, archs, sel, m, payload) == patch_archs(s, archs, sel, k, payload),
    decreases m - k,
{
    if k < m {
        lemma_patch_archs_error_sticks(s, archs, sel, k, m - 1, payload);
    }
}

/// Patches the images of a fat archive's architectures, after checking its
/// whole table. One architecture is patched without asking; of several,
/// `decider` is asked once whether to patch all, and if not, once for each
/// whether to patch it. The images are patched in table order, each with
/// its entry's offset as base; the first refusal stops the run. On an error
/// nothing is written.
pub fn patch_fat<D: Decider>(
    data: &mut Vec<u8>,
    swap: bool,
    payload: &Vec<u8>,
    decider: &mut D,
) -> (r: Result<FatOutcome, PatchError>)
    ensures
        match r {
            Ok(out) => fat_patched(old(data)@, final(data)@, swap, payload@, out),
            Err(e) => fat_refused(old(data)@, final(data)@, swap, payload@, e),
        },
{
    let archs = match parse_fat(data, swap) {
        Ok(archs) => archs,
        Err(e) => {
            return Err(e);
        },
    };
    let n: usize = archs.len();
    let apply_all: Option<bool> = if n > 1 {
        Some(decider.confirm(Question::ApplyToAll { count: n as u32 }))
    } else {
        None
    };
    let mut work: Vec<u8> = Vec::new();
    push_all(&mut work, data);
    assert(work@ =~= data@);
    let mut insertions: Vec<Option<Insertion>> = Vec::new();
    let mut i: usize = 0;
    while i < n
        invariant
            n == archs@.len(),
            parse_fat_spec(old(data)@, swap) == Ok::<Seq<FatArch>, PatchError>(archs@),
            data@ == old(data)@,
            i <= n,
            insertions@.len() == i,
            apply_all is None <==> n == 1,
            apply_all != Some(false) ==> forall|k: int|
                0 <= k < i ==> insertions@[k] is Some,
            patch_archs(old(data)@, archs@, chosen(insertions@), i as int, payload@) == Ok::<
                Seq<u8>,
                PatchError,
            >(work@),
            forall|k: int|
                0 <= k < i && insertions@[k] is Some ==> insertions@[k] == Some(
                    expected_insertion(old(data)@, archs@, chosen(insertions@), k, payload@),
                ),
        decreases n - i,
    {
        let arch = archs[i];
        let wanted: bool = match apply_all {
            Some(false) => decider.confirm(
                Question::PatchArch { index: i as u32, cputype: arch.cputype },
            ),
            _ => true,
        };
        let ghost before = insertions@;
        let ghost state = work@;
        if wanted {
            match insert_dylib(&mut work, arch.offset as u64, payload) {
                Ok(ins) => {
                    insertions.push(Some(ins));
                },
                Err(e) => {
                    proof {
                        let sel = chosen(before) + Seq::new((n - i) as nat, |j: int| true);
                        lemma_patch_archs_prefix(
                            old(data)@,
                            archs@,
                            chosen(before),
                            sel,
                            i as int,
                            payload@,
                        );
                        assert(sel[i as int]);
                        assert(patch_archs(old(data)@, archs@, sel, i + 1, payload@) == Err::<
                            Seq<u8>,
                            PatchError,
                        >(e));
                        lemma_patch_archs_error_sticks(
                            old(data)@,
                            archs@,
                            sel,
                            i + 1,
                            n as int,
                            payload@,
                        );
                        assert(sel.len() == archs@.len());
                    }
                    return Err(e);
                },
            }
        } else {
            insertions.push(None);
        }
        proof {
            lemma_patch_archs_prefix(
                old(data)@,
                archs@,
                chosen(before),
                chosen(insertions@),
                i as int,
                payload@,
            );
            assert forall|k: int|
                0 <= k < i + 1 && insertions@[k] is Some implies insertions@[k] == Some(
                expected_insertion(old(data)@, archs@, chosen(insertions@), k, payload@),
            ) by {
                lemma_patch_archs_prefix(
                    old(data)@,
                    archs@,
                    chosen(before),
                    chosen(insertions@),
                    k,
                    payload@,
                );
            }
        }
        i = i + 1;
    }
    *data = work;
    Ok(FatOutcome { archs, apply_all, insertions })
}

} // verus!
