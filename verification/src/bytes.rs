//! Little- and big-endian integer encodings used by the on-disk, in-memory
//! and on-the-wire formats of the kernel.
use vstd::prelude::*;

verus! {

/// The little-endian `u16` stored at `s[i..i + 2]`.
pub open spec fn le_u16(s: Seq<u8>, i: int) -> u16 {
    (s[i] as u16) | ((s[i + 1] as u16) << 8u16)
}

/// The little-endian `u32` stored at `s[i..i + 4]`.
pub open spec fn le_u32(s: Seq<u8>, i: int) -> u32 {
    (s[i] as u32) | ((s[i + 1] as u32) << 8u32) | ((s[i + 2] as u32) << 16u32) | ((s[i + 3] as u32)
        << 24u32)
}

/// The little-endian `u64` stored at `s[i..i + 8]`.
pub open spec fn le_u64(s: Seq<u8>, i: int) -> u64 {
    (s[i] as u64) | ((s[i + 1] as u64) << 8u64) | ((s[i + 2] as u64) << 16u64) | ((s[i + 3] as u64)
        << 24u64) | ((s[i + 4] as u64) << 32u64) | ((s[i + 5] as u64) << 40u64) | ((s[i + 6] as u64)
        << 48u64) | ((s[i + 7] as u64) << 56u64)
}

/// The big-endian `u16` stored at `s[i..i + 2]`.
pub open spec fn be_u16(s: Seq<u8>, i: int) -> u16 {
    ((s[i] as u16) << 8u16) | (s[i + 1] as u16)
}

/// The big-endian `u32` stored at `s[i..i + 4]`.
pub open spec fn be_u32(s: Seq<u8>, i: int) -> u32 {
    ((s[i] as u32) << 24u32) | ((s[i + 1] as u32) << 16u32) | ((s[i + 2] as u32) << 8u32) | (s[i
        + 3] as u32)
}

/// The two bytes of `v`, least significant first.
#[verifier::opaque]
pub open spec fn u16_le(v: u16) -> Seq<u8> {
    seq![v as u8, (v >> 8u16) as u8]
}

/// The four bytes of `v`, least significant first.
#[verifier::opaque]
pub open spec fn u32_le(v: u32) -> Seq<u8> {
    seq![v as u8, (v >> 8u32) as u8, (v >> 16u32) as u8, (v >> 24u32) as u8]
}

/// The eight bytes of `v`, least significant first.
#[verifier::opaque]
pub open spec fn u64_le(v: u64) -> Seq<u8> {
    seq![
        v as u8,
        (v >> 8u64) as u8,
        (v >> 16u64) as u8,
        (v >> 24u64) as u8,
        (v >> 32u64) as u8,
        (v >> 40u64) as u8,
        (v >> 48u64) as u8,
        (v >> 56u64) as u8,
    ]
}

/// The two bytes of `v`, most significant first.
#[verifier::opaque]
pub open spec fn u16_be(v: u16) -> Seq<u8> {
    seq![(v >> 8u16) as u8, v as u8]
}

/// The four bytes of `v`, most significant first.
#[verifier::opaque]
pub open spec fn u32_be(v: u32) -> Seq<u8> {
    seq![(v >> 24u32) as u8, (v >> 16u32) as u8, (v >> 8u32) as u8, v as u8]
}

pub broadcast proof fn lemma_u16_le_len(v: u16)
    ensures
        #[trigger] u16_le(v).len() == 2,
{
    reveal(u16_le);
}

pub broadcast proof fn lemma_u32_le_len(v: u32)
    ensures
        #[trigger] u32_le(v).len() == 4,
{
    reveal(u32_le);
}

pub broadcast proof fn lemma_u64_le_len(v: u64)
    ensures
        #[trigger] u64_le(v).len() == 8,
{
    reveal(u64_le);
}

pub broadcast proof fn lemma_u16_be_len(v: u16)
    ensures
        #[trigger] u16_be(v).len() == 2,
{
    reveal(u16_be);
}

pub broadcast proof fn lemma_u32_be_len(v: u32)
    ensures
        #[trigger] u32_be(v).len() == 4,
{
    reveal(u32_be);
}

pub broadcast group group_encoded_lengths {
    lemma_u16_le_len,
    lemma_u32_le_len,
    lemma_u64_le_len,
    lemma_u16_be_len,
    lemma_u32_be_len,
}

pub proof fn lemma_u16_le_roundtrip(v: u16)
    ensures
        le_u16(u16_le(v), 0) == v,
{
    reveal(u16_le);
    let s = u16_le(v);
    let (b0, b1) = (s[0], s[1]);
    assert((b0 as u16) | ((b1 as u16) << 8u16) == v) by (bit_vector)
        requires
            b0 == v as u8,
            b1 == (v >> 8u16) as u8,
    ;
}

pub proof fn lemma_u32_le_roundtrip(v: u32)
    ensures
        le_u32(u32_le(v), 0) == v,
{
    reveal(u32_le);
    let s = u32_le(v);
    let (b0, b1, b2, b3) = (s[0], s[1], s[2], s[3]);
    assert((b0 as u32) | ((b1 as u32) << 8u32) | ((b2 as u32) << 16u32) | ((b3 as u32) << 24u32)
        == v) by (bit_vector)
        requires
            b0 == v as u8,
            b1 == (v >> 8u32) as u8,
            b2 == (v >> 16u32) as u8,
            b3 == (v >> 24u32) as u8,
    ;
}

pub proof fn lemma_u64_le_roundtrip(v: u64)
    ensures
        le_u64(u64_le(v), 0) == v,
{
    reveal(u64_le);
    let s = u64_le(v);
    let (b0, b1, b2, b3, b4, b5, b6, b7) = (s[0], s[1], s[2], s[3], s[4], s[5], s[6], s[7]);
    assert((b0 as u64) | ((b1 as u64) << 8u64) | ((b2 as u64) << 16u64) | ((b3 as u64) << 24u64)
        | ((b4 as u64) << 32u64) | ((b5 as u64) << 40u64) | ((b6 as u64) << 48u64) | ((b7 as u64)
        << 56u64) == v) by (bit_vector)
        requires
            b0 == v as u8,
            b1 == (v >> 8u64) as u8,
            b2 == (v >> 16u64) as u8,
            b3 == (v >> 24u64) as u8,
            b4 == (v >> 32u64) as u8,
            b5 == (v >> 40u64) as u8,
            b6 == (v >> 48u64) as u8,
            b7 == (v >> 56u64) as u8,
    ;
}

pub proof fn lemma_u16_be_roundtrip(v: u16)
    ensures
        be_u16(u16_be(v), 0) == v,
{
    reveal(u16_be);
    let s = u16_be(v);
    let (b0, b1) = (s[0], s[1]);
    assert(((b0 as u16) << 8u16) | (b1 as u16) == v) by (bit_vector)
        requires
            b0 == (v >> 8u16) as u8,
            b1 == v as u8,
    ;
}

/// Reads the little-endian `u16` at `data[off..off + 2]`.
pub fn read_le_u16(data: &[u8], off: usize) -> (r: u16)
    requires
        off + 2 <= data@.len(),
    ensures
        r == le_u16(data@, off as int),
{
    (data[off] as u16) | ((data[off + 1] as u16) << 8u16)
}

/// Reads the little-endian `u32` at `data[off..off + 4]`.
pub fn read_le_u32(data: &[u8], off: usize) -> (r: u32)
    requires
        off + 4 <= data@.len(),
    ensures
        r == le_u32(data@, off as int),
{
    (data[off] as u32) | ((data[off + 1] as u32) << 8u32) | ((data[off + 2] as u32) << 16u32) | ((
    data[off + 3] as u32) << 24u32)
}

/// Reads the little-endian `u64` at `data[off..off + 8]`.
pub fn read_le_u64(data: &[u8], off: usize) -> (r: u64)
    requires
        off + 8 <= data@.len(),
    ensures
        r == le_u64(data@, off as int),
{
    (data[off] as u64) | ((data[off + 1] as u64) << 8u64) | ((data[off + 2] as u64) << 16u64) | ((
    data[off + 3] as u64) << 24u64) | ((data[off + 4] as u64) << 32u64) | ((data[off + 5] as u64)
        << 40u64) | ((data[off + 6] as u64) << 48u64) | ((data[off + 7] as u64) << 56u64)
}

/// Reads the big-endian `u16` at `data[off..off + 2]`.
pub fn read_be_u16(data: &[u8], off: usize) -> (r: u16)
    requires
        off + 2 <= data@.len(),
    ensures
        r == be_u16(data@, off as int),
{
    ((data[off] as u16) << 8u16) | (data[off + 1] as u16)
}

/// Reads the big-endian `u32` at `data[off..off + 4]`.
pub fn read_be_u32(data: &[u8], off: usize) -> (r: u32)
    requires
        off + 4 <= data@.len(),
    ensures
        r == be_u32(data@, off as int),
{
    ((data[off] as u32) << 24u32) | ((data[off + 1] as u32) << 16u32) | ((data[off + 2] as u32)
        << 8u32) | (data[off + 3] as u32)
}

/// Appends the little-endian bytes of `v`.
pub fn push_le_u16(out: &mut Vec<u8>, v: u16)
    ensures
        final(out)@ == old(out)@ + u16_le(v),
{
    reveal(u16_le);
    out.push(v as u8);
    out.push((v >> 8u16) as u8);
}

/// Appends the little-endian bytes of `v`.
pub fn push_le_u32(out: &mut Vec<u8>, v: u32)
    ensures
        final(out)@ == old(out)@ + u32_le(v),
{
    reveal(u32_le);
    out.push(v as u8);
    out.push((v >> 8u32) as u8);
    out.push((v >> 16u32) as u8);
    out.push((v >> 24u32) as u8);
}

/// Appends the little-endian bytes of `v`.
pub fn push_le_u64(out: &mut Vec<u8>, v: u64)
    ensures
        final(out)@ == old(out)@ + u64_le(v),
{
    reveal(u64_le);
    out.push(v as u8);
    out.push((v >> 8u64) as u8);
    out.push((v >> 16u64) as u8);
    out.push((v >> 24u64) as u8);
    out.push((v >> 32u64) as u8);
    out.push((v >> 40u64) as u8);
    out.push((v >> 48u64) as u8);
    out.push((v >> 56u64) as u8);
}

/// Appends the big-endian bytes of `v`.
pub fn push_be_u16(out: &mut Vec<u8>, v: u16)
    ensures
        final(out)@ == old(out)@ + u16_be(v),
{
    reveal(u16_be);
    out.push((v >> 8u16) as u8);
    out.push(v as u8);
}

/// Appends the big-endian bytes of `v`.
pub fn push_be_u32(out: &mut Vec<u8>, v: u32)
    ensures
        final(out)@ == old(out)@ + u32_be(v),
{
    reveal(u32_be);
    out.push((v >> 24u32) as u8);
    out.push((v >> 16u32) as u8);
    out.push((v >> 8u32) as u8);
    out.push(v as u8);
}

/// Appends all of `bytes`.
pub fn push_all(out: &mut Vec<u8>, bytes: &[u8])
    ensures
        final(out)@ == old(out)@ + bytes@,
{
    let mut i: usize = 0;
    while i < bytes.len()
        invariant
            i <= bytes@.len(),
            out@ == old(out)@ + bytes@.subrange(0, i as int),
        decreases bytes@.len() - i,
    {
        out.push(bytes[i]);
        i = i + 1;
    }
    assert(bytes@.subrange(0, bytes@.len() as int) =~= bytes@);
}

/// `s[i..i + 2]` holds the little-endian bytes of `v`.
pub proof fn lemma_le_u16_at(s: Seq<u8>, i: int, v: u16)
    requires
        0 <= i,
        i + 2 <= s.len(),
        s.subrange(i, i + 2) == u16_le(v),
    ensures
        le_u16(s, i) == v,
{
    lemma_u16_le_roundtrip(v);
    assert(s[i] == s.subrange(i, i + 2)[0]);
    assert(s[i + 1] == s.subrange(i, i + 2)[1]);
}

/// `s[i..i + 4]` holds the little-endian bytes of `v`.
pub proof fn lemma_le_u32_at(s: Seq<u8>, i: int, v: u32)
    requires
        0 <= i,
        i + 4 <= s.len(),
        s.subrange(i, i + 4) == u32_le(v),
    ensures
        le_u32(s, i) == v,
{
    lemma_u32_le_roundtrip(v);
    let t = s.subrange(i, i + 4);
    assert(s[i] == t[0] && s[i + 1] == t[1] && s[i + 2] == t[2] && s[i + 3] == t[3]);
}

/// `s[i..i + 8]` holds the little-endian bytes of `v`.
pub proof fn lemma_le_u64_at(s: Seq<u8>, i: int, v: u64)
    requires
        0 <= i,
        i + 8 <= s.len(),
        s.subrange(i, i + 8) == u64_le(v),
    ensures
        le_u64(s, i) == v,
{
    lemma_u64_le_roundtrip(v);
    let t = s.subrange(i, i + 8);
    assert(s[i] == t[0] && s[i + 1] == t[1] && s[i + 2] == t[2] && s[i + 3] == t[3]);
    assert(s[i + 4] == t[4] && s[i + 5] == t[5] && s[i + 6] == t[6] && s[i + 7] == t[7]);
}

/// `s[i..i + 2]` holds the big-endian bytes of `v`.
pub proof fn lemma_be_u16_at(s: Seq<u8>, i: int, v: u16)
    requires
        0 <= i,
        i + 2 <= s.len(),
        s.subrange(i, i + 2) == u16_be(v),
    ensures
        be_u16(s, i) == v,
{
    lemma_u16_be_roundtrip(v);
    assert(s[i] == s.subrange(i, i + 2)[0]);
    assert(s[i + 1] == s.subrange(i, i + 2)[1]);
}

/// Whether two byte strings are equal.
pub fn bytes_equal(a: &[u8], b: &[u8]) -> (r: bool)
    ensures
        r == (a@ == b@),
{
    if a.len() != b.len() {
        return false;
    }
    let mut i: usize = 0;
    while i < a.len()
        invariant
            a@.len() == b@.len(),
            i <= a@.len(),
            forall|k: int| 0 <= k < i ==> a@[k] == b@[k],
        decreases a@.len() - i,
    {
        if a[i] != b[i] {
            return false;
        }
        i = i + 1;
    }
    assert(a@ =~= b@);
    true
}

/// Reading a little-endian field from the left part of a concatenation.
pub proof fn lemma_le_concat_left(a: Seq<u8>, b: Seq<u8>, i: int)
    requires
        0 <= i,
        i + 8 <= a.len(),
    ensures
        le_u16(a + b, i) == le_u16(a, i),
        le_u32(a + b, i) == le_u32(a, i),
        le_u64(a + b, i) == le_u64(a, i),
{
    assert((a + b)[i] == a[i] && (a + b)[i + 1] == a[i + 1] && (a + b)[i + 2] == a[i + 2] && (a
        + b)[i + 3] == a[i + 3]);
    assert((a + b)[i + 4] == a[i + 4] && (a + b)[i + 5] == a[i + 5] && (a + b)[i + 6] == a[i + 6]
        && (a + b)[i + 7] == a[i + 7]);
}

/// Reading a little-endian field from the right part of a concatenation.
pub proof fn lemma_le_concat_right(a: Seq<u8>, b: Seq<u8>, j: int)
    requires
        0 <= j,
        j + 8 <= b.len(),
    ensures
        le_u16(a + b, a.len() + j) == le_u16(b, j),
        le_u32(a + b, a.len() + j) == le_u32(b, j),
        le_u64(a + b, a.len() + j) == le_u64(b, j),
{
    let n = a.len() as int;
    assert((a + b)[n + j] == b[j] && (a + b)[n + j + 1] == b[j + 1] && (a + b)[n + j + 2] == b[j
        + 2] && (a + b)[n + j + 3] == b[j + 3]);
    assert((a + b)[n + j + 4] == b[j + 4] && (a + b)[n + j + 5] == b[j + 5] && (a + b)[n + j + 6]
        == b[j + 6] && (a + b)[n + j + 7] == b[j + 7]);
}

/// The `u64` field that starts right after `prefix`.
pub proof fn lemma_le_u64_field(prefix: Seq<u8>, v: u64, rest: Seq<u8>)
    ensures
        le_u64(prefix + (u64_le(v) + rest), prefix.len() as int) == v,
{
    lemma_u64_le_len(v);
    lemma_le_concat_right(prefix, u64_le(v) + rest, 0);
    lemma_le_concat_left(u64_le(v), rest, 0);
    lemma_u64_le_roundtrip(v);
}

/// The `u32` field that starts right after `prefix`.
pub proof fn lemma_le_u32_field(prefix: Seq<u8>, v: u32, rest: Seq<u8>)
    requires
        rest.len() >= 4,
    ensures
        le_u32(prefix + (u32_le(v) + rest), prefix.len() as int) == v,
{
    lemma_u32_le_len(v);
    let s = prefix + (u32_le(v) + rest);
    let n = prefix.len() as int;
    let w = u32_le(v);
    assert(s[n] == w[0] && s[n + 1] == w[1] && s[n + 2] == w[2] && s[n + 3] == w[3]);
    lemma_u32_le_roundtrip(v);
}

} // verus!
