//! Little-endian field access over byte buffers.
//!
//! Every on-disk record of the filesystem is a flat little-endian layout;
//! these are the primitive reads and writes that the record codecs build on.

use vstd::prelude::*;

verus! {

/// The 16-bit little-endian value stored at byte offset `i` of `s`.
pub open spec fn le16_at(s: Seq<u8>, i: int) -> u16 {
    ((s[i] as int) + 0x100 * (s[i + 1] as int)) as u16
}

/// The 32-bit little-endian value stored at byte offset `i` of `s`.
pub open spec fn le32_at(s: Seq<u8>, i: int) -> u32 {
    ((s[i] as int)
        + 0x100 * (s[i + 1] as int)
        + 0x1_0000 * (s[i + 2] as int)
        + 0x100_0000 * (s[i + 3] as int)) as u32
}

/// `s` with the bytes of `x` written at offset `i`.
pub open spec fn splice_bytes(s: Seq<u8>, i: int, x: Seq<u8>) -> Seq<u8> {
    s.take(i) + x + s.skip(i + x.len())
}

pub proof fn lemma_splice_bytes_len(s: Seq<u8>, i: int, x: Seq<u8>)
    requires
        0 <= i,
        i + x.len() <= s.len(),
    ensures
        splice_bytes(s, i, x).len() == s.len(),
        forall|j: int| 0 <= j < i ==> splice_bytes(s, i, x)[j] == s[j],
        forall|j: int| i <= j < i + x.len() ==> splice_bytes(s, i, x)[j] == x[j - i],
        forall|j: int| i + x.len() <= j < s.len() ==> splice_bytes(s, i, x)[j] == s[j],
{
}

pub fn read_u16_le(s: &Vec<u8>, i: usize) -> (r: u16)
    requires
        i + 2 <= s@.len(),
    ensures
        r == le16_at(s@, i as int),
{
    let n = s.len();
    assert(i + 2 <= n);
    (s[i] as u16) + (s[i + 1] as u16) * 0x100
}

pub fn read_u32_le(s: &Vec<u8>, i: usize) -> (r: u32)
    requires
        i + 4 <= s@.len(),
    ensures
        r == le32_at(s@, i as int),
{
    let n = s.len();
    assert(i + 4 <= n);
    (s[i] as u32)
        + (s[i + 1] as u32) * 0x100
        + (s[i + 2] as u32) * 0x1_0000
        + (s[i + 3] as u32) * 0x100_0000
}

pub fn write_u16_le(s: &mut Vec<u8>, i: usize, v: u16)
    requires
        i + 2 <= old(s)@.len(),
    ensures
        final(s)@.len() == old(s)@.len(),
        le16_at(final(s)@, i as int) == v,
        forall|j: int| 0 <= j < old(s)@.len() && !(i <= j < i + 2) ==> final(s)@[j] == old(s)@[j],
{
    let n = s.len();
    assert(i + 2 <= n);
    let lo = (v % 0x100) as u8;
    let hi = (v / 0x100) as u8;
    s.set(i, lo);
    s.set(i + 1, hi);
}

pub fn write_u32_le(s: &mut Vec<u8>, i: usize, v: u32)
    requires
        i + 4 <= old(s)@.len(),
    ensures
        final(s)@.len() == old(s)@.len(),
        le32_at(final(s)@, i as int) == v,
        forall|j: int| 0 <= j < old(s)@.len() && !(i <= j < i + 4) ==> final(s)@[j] == old(s)@[j],
{
    let n = s.len();
    assert(i + 4 <= n);
    let b0 = (v % 0x100) as u8;
    let b1 = ((v / 0x100) % 0x100) as u8;
    let b2 = ((v / 0x1_0000) % 0x100) as u8;
    let b3 = (v / 0x100_0000) as u8;
    s.set(i, b0);
    s.set(i + 1, b1);
    s.set(i + 2, b2);
    s.set(i + 3, b3);
}

/// A fresh all-zero buffer of length `n`.
pub fn zero_vec(n: usize) -> (r: Vec<u8>)
    ensures
        r@.len() == n,
        forall|j: int| 0 <= j < n ==> r@[j] == 0u8,
{
    let mut r: Vec<u8> = Vec::new();
    let mut k: usize = 0;
    while k < n
        invariant
            k <= n,
            r@.len() == k,
            forall|j: int| 0 <= j < k ==> r@[j] == 0u8,
        decreases n - k,
    {
        r.push(0u8);
        k = k + 1;
    }
    r
}

/// A copy of `s[i .. i + n]`.
pub fn read_bytes(s: &Vec<u8>, i: usize, n: usize) -> (r: Vec<u8>)
    requires
        i + n <= s@.len(),
    ensures
        r@ == s@.subrange(i as int, i + n),
{
    let total = s.len();
    assert(i + n <= total);
    let mut r: Vec<u8> = Vec::new();
    let mut k: usize = 0;
    while k < n
        invariant
            k <= n,
            i + n <= s@.len(),
            s@.len() <= usize::MAX,
            r@.len() == k,
            forall|j: int| 0 <= j < k ==> r@[j] == s@[i + j],
        decreases n - k,
    {
        r.push(s[i + k]);
        k = k + 1;
    }
    proof {
        assert(r@ =~= s@.subrange(i as int, i + n));
    }
    r
}

/// Overwrites `s[i .. i + src.len()]` with `src`.
pub fn write_bytes(s: &mut Vec<u8>, i: usize, src: &Vec<u8>)
    requires
        i + src@.len() <= old(s)@.len(),
    ensures
        final(s)@ == splice_bytes(old(s)@, i as int, src@),
{
    let n = src.len();
    let total = s.len();
    assert(i + n <= total);
    let mut k: usize = 0;
    while k < n
        invariant
            k <= n,
            n == src@.len(),
            i + n <= s@.len(),
            s@.len() <= usize::MAX,
            s@.len() == old(s)@.len(),
            forall|j: int| 0 <= j < k ==> s@[i + j] == src@[j],
            forall|j: int| 0 <= j < s@.len() && !(i <= j < i + k) ==> s@[j] == old(s)@[j],
        decreases n - k,
    {
        s.set(i + k, src[k]);
        k = k + 1;
    }
    proof {
        lemma_splice_bytes_len(old(s)@, i as int, src@);
        assert(s@ =~= splice_bytes(old(s)@, i as int, src@));
    }
}

/// A 16-bit field inside a subrange equals the field in the whole sequence
/// at the shifted offset.
pub proof fn lemma_le16_at_subrange(s: Seq<u8>, a: int, b: int, i: int)
    requires
        0 <= a,
        0 <= i,
        a + i + 2 <= b,
        b <= s.len(),
    ensures
        le16_at(s.subrange(a, b), i) == le16_at(s, a + i),
{
}

/// A 32-bit field inside a subrange equals the field in the whole sequence
/// at the shifted offset.
pub proof fn lemma_le32_at_subrange(s: Seq<u8>, a: int, b: int, i: int)
    requires
        0 <= a,
        0 <= i,
        a + i + 4 <= b,
        b <= s.len(),
    ensures
        le32_at(s.subrange(a, b), i) == le32_at(s, a + i),
{
}

/// Whether bit `i` of the bitmap starting at byte `base` of `s` is set
/// (byte-major, LSB first within each byte).
pub open spec fn bitmap_bit_at(s: Seq<u8>, base: int, i: int) -> bool {
    (s[base + i / 8] >> ((i % 8) as u8)) & 1u8 == 1u8
}

/// Relates the run-time mask test to the bitmap's shift form.
pub proof fn lemma_bit_mask_test(b: u8, k: u8)
    requires
        k < 8,
    ensures
        (b & (1u8 << k) == 0u8) <==> ((b >> k) & 1u8 == 0u8),
        (b & (1u8 << k) != 0u8) <==> ((b >> k) & 1u8 == 1u8),
        (b | (1u8 << k)) >> k & 1u8 == 1u8,
        forall|j: u8| j < 8 && j != k ==> ((b | (1u8 << k)) >> j & 1u8 == b >> j & 1u8),
{
    assert((b & (1u8 << k) == 0u8) <==> ((b >> k) & 1u8 == 0u8)) by (bit_vector)
        requires k < 8;
    assert((b & (1u8 << k) != 0u8) <==> ((b >> k) & 1u8 == 1u8)) by (bit_vector)
        requires k < 8;
    assert((b | (1u8 << k)) >> k & 1u8 == 1u8) by (bit_vector)
        requires k < 8;
    assert forall|j: u8| j < 8 && j != k implies ((b | (1u8 << k)) >> j & 1u8 == b >> j & 1u8) by {
        assert(((b | (1u8 << k)) >> j & 1u8 == b >> j & 1u8)) by (bit_vector)
            requires k < 8, j < 8, j != k;
    }
}

} // verus!
