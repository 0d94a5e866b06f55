//! Little-endian 32-bit words, byte swapping and in-place overwrites of a
//! byte sequence.
use vstd::prelude::*;

verus! {

/// The little-endian 32-bit word stored at `s[i..i + 4]`.
pub open spec fn le32(s: Seq<u8>, i: int) -> u32 {
    (s[i] as int + s[i + 1] as int * 0x100 + s[i + 2] as int * 0x1_0000 + s[i + 3] as int
        * 0x100_0000) as u32
}

/// The four little-endian bytes of `v`.
#[verifier::opaque]
pub open spec fn le_bytes(v: u32) -> Seq<u8> {
    seq![
        (v % 0x100) as u8,
        ((v / 0x100) % 0x100) as u8,
        ((v / 0x1_0000) % 0x100) as u8,
        (v / 0x100_0000) as u8,
    ]
}

/// `v` with its four bytes in reverse order.
pub open spec fn byte_swap(v: u32) -> u32 {
    ((v % 0x100) * 0x100_0000 + ((v / 0x100) % 0x100) * 0x1_0000 + ((v / 0x1_0000) % 0x100)
        * 0x100 + v / 0x100_0000) as u32
}

/// `v` read in the declared byte order: swapped when `swap` holds.
pub open spec fn swapped(v: u32, swap: bool) -> u32 {
    if swap {
        byte_swap(v)
    } else {
        v
    }
}

/// `s` with `w` written over it from position `at`, growing it where `w`
/// runs past its end.
#[verifier::opaque]
pub open spec fn overwrite(s: Seq<u8>, at: int, w: Seq<u8>) -> Seq<u8> {
    Seq::new(
        if at + w.len() > s.len() { (at + w.len()) as nat } else { s.len() },
        |i: int|
            if at <= i < at + w.len() {
                w[i - at]
            } else {
                s[i]
            },
    )
}

/// Decoding the encoding of a word gives the word back.
pub proof fn lemma_le32_of_le_bytes(v: u32, s: Seq<u8>, i: int)
    requires
        0 <= i,
        i + 4 <= s.len(),
        s.subrange(i, i + 4) == le_bytes(v),
    ensures
        le32(s, i) == v,
{
    reveal(le_bytes);
    assert(s[i] == le_bytes(v)[0]);
    assert(s[i + 1] == le_bytes(v)[1]);
    assert(s[i + 2] == le_bytes(v)[2]);
    assert(s[i + 3] == le_bytes(v)[3]);
    let a = v % 0x100;
    let b = (v / 0x100) % 0x100;
    let c = (v / 0x1_0000) % 0x100;
    let d = v / 0x100_0000;
    assert(a + b * 0x100 + c * 0x1_0000 + d * 0x100_0000 == v) by (nonlinear_arith)
        requires
            a == v % 0x100,
            b == (v / 0x100) % 0x100,
            c == (v / 0x1_0000) % 0x100,
            d == v / 0x100_0000,
            v < 0x1_0000_0000,
    {
    }
}

/// An encoded word is four bytes long.
pub proof fn lemma_le_bytes_len(v: u32)
    ensures
        le_bytes(v).len() == 4,
{
    reveal(le_bytes);
}

/// A word encoded at `off` inside `b`, with `b` stored at `at` in `t`, reads
/// back from `t` at `at + off`.
pub proof fn lemma_read_back(t: Seq<u8>, at: int, b: Seq<u8>, off: int, v: u32)
    requires
        0 <= at,
        at + b.len() <= t.len(),
        t.subrange(at, at + b.len()) == b,
        0 <= off,
        off + 4 <= b.len(),
        b.subrange(off, off + 4) == le_bytes(v),
    ensures
        le32(t, at + off) == v,
{
    assert(t.subrange(at + off, at + off + 4) =~= b.subrange(off, off + 4));
    lemma_le32_of_le_bytes(v, t, at + off);
}

/// What `overwrite` leaves at each position.
pub proof fn lemma_overwrite_index(s: Seq<u8>, at: int, w: Seq<u8>, i: int)
    requires
        0 <= at <= s.len(),
        0 <= i < overwrite(s, at, w).len(),
    ensures
        overwrite(s, at, w).len() == if at + w.len() > s.len() {
            at + w.len()
        } else {
            s.len() as int
        },
        overwrite(s, at, w)[i] == if at <= i < at + w.len() {
            w[i - at]
        } else {
            s[i]
        },
{
    reveal(overwrite);
}

/// The length of an overwritten sequence.
pub proof fn lemma_overwrite_len(s: Seq<u8>, at: int, w: Seq<u8>)
    requires
        0 <= at <= s.len(),
    ensures
        overwrite(s, at, w).len() == if at + w.len() > s.len() {
            at + w.len()
        } else {
            s.len() as int
        },
{
    reveal(overwrite);
}

/// Reads the little-endian word at `data[at..at + 4]`.
pub fn read_u32_le(data: &Vec<u8>, at: usize) -> (r: u32)
    requires
        at + 4 <= data@.len(),
    ensures
        r == le32(data@, at as int),
{
    // the length of a vector fits in usize, and so does `at + 3`
    let _len: usize = data.len();
    let b0 = data[at] as u32;
    let b1 = data[at + 1] as u32;
    let b2 = data[at + 2] as u32;
    let b3 = data[at + 3] as u32;
    b0 + b1 * 0x100 + b2 * 0x1_0000 + b3 * 0x100_0000
}

/// Appends the four little-endian bytes of `v` to `out`.
pub fn push_u32_le(out: &mut Vec<u8>, v: u32)
    ensures
        final(out)@ == old(out)@ + le_bytes(v),
        final(out)@.len() == old(out)@.len() + 4,
{
    out.push((v % 0x100) as u8);
    out.push(((v / 0x100) % 0x100) as u8);
    out.push(((v / 0x1_0000) % 0x100) as u8);
    out.push((v / 0x100_0000) as u8);
    reveal(le_bytes);
    assert(final(out)@ =~= old(out)@ + le_bytes(v));
}

/// Swaps the byte order of `v` when `swap` holds; returns it unchanged
/// otherwise.
pub fn swap32(v: u32, swap: bool) -> (r: u32)
    ensures
        r == swapped(v, swap),
{
    if swap {
        (v % 0x100) * 0x100_0000 + ((v / 0x100) % 0x100) * 0x1_0000 + ((v / 0x1_0000) % 0x100)
            * 0x100 + v / 0x100_0000
    } else {
        v
    }
}

/// Writes `w` over `data` from position `at`, pushing the bytes that run
/// past its end.
pub fn write_bytes(data: &mut Vec<u8>, at: usize, w: &Vec<u8>)
    requires
        at <= old(data)@.len(),
        at + w@.len() <= usize::MAX,
    ensures
        final(data)@ == overwrite(old(data)@, at as int, w@),
        final(data)@.len() == if at + w@.len() > old(data)@.len() {
            at + w@.len()
        } else {
            old(data)@.len() as int
        },
{
    proof {
        reveal(overwrite);
        assert(overwrite(old(data)@, at as int, w@.subrange(0, 0)) =~= old(data)@);
    }
    let mut k: usize = 0;
    while k < w.len()
        invariant
            at <= old(data)@.len(),
            at + w@.len() <= usize::MAX,
            k <= w@.len(),
            data@ == overwrite(old(data)@, at as int, w@.subrange(0, k as int)),
        decreases w@.len() - k,
    {
        reveal(overwrite);
        let pos = at + k;
        if pos < data.len() {
            data.set(pos, w[k]);
        } else {
            data.push(w[k]);
        }
        k = k + 1;
        assert(data@ =~= overwrite(old(data)@, at as int, w@.subrange(0, k as int)));
    }
    proof {
        reveal(overwrite);
        assert(w@.subrange(0, w@.len() as int) =~= w@);
    }
    assert(data@.len() == overwrite(old(data)@, at as int, w@).len()) by {
        reveal(overwrite);
    }
}

} // verus!

verus! {

/// Appends the bytes of `w` to `out`.
pub fn push_all(out: &mut Vec<u8>, w: &Vec<u8>)
    ensures
        final(out)@ == old(out)@ + w@,
{
    let mut k: usize = 0;
    while k < w.len()
        invariant
            k <= w@.len(),
            out@ == old(out)@ + w@.subrange(0, k as int),
        decreases w@.len() - k,
    {
        out.push(w[k]);
        k = k + 1;
        assert(out@ =~= old(out)@ + w@.subrange(0, k as int));
    }
    assert(w@.subrange(0, w@.len() as int) =~= w@);
}

} // verus!
