//! The byte-level model of the format: what the bytes of a field mean, and
//! what writing a field does to a buffer.
//!
//! XFS stores its integers big-endian, except for checksums, which are stored
//! little-endian. The readers below are stated as base-256 numerals; the
//! writers are stated as updates of a byte sequence and characterised byte by
//! byte by the broadcast lemmas of this module.
use crate::error::ParseError;
use vstd::prelude::*;

verus! {

// ---------------------------------------------------------------- numerals

/// The value of the big-endian numeral `d[0..2]`.
pub open spec fn from_be16(d: Seq<u8>) -> u16 {
    (d[0] * 0x100 + d[1]) as u16
}

/// The value of the big-endian numeral `d[0..4]`.
pub open spec fn from_be32(d: Seq<u8>) -> u32 {
    (d[0] * 0x100_0000 + d[1] * 0x1_0000 + d[2] * 0x100 + d[3]) as u32
}

/// The value of the big-endian numeral `d[0..8]`.
pub open spec fn from_be64(d: Seq<u8>) -> u64 {
    (d[0] * 0x100_0000_0000_0000 + d[1] * 0x1_0000_0000_0000 + d[2] * 0x100_0000_0000 + d[3]
        * 0x1_0000_0000 + d[4] * 0x100_0000 + d[5] * 0x1_0000 + d[6] * 0x100 + d[7]) as u64
}

/// The value of the little-endian numeral `d[0..4]`.
pub open spec fn from_le32(d: Seq<u8>) -> u32 {
    (d[0] + d[1] * 0x100 + d[2] * 0x1_0000 + d[3] * 0x100_0000) as u32
}

/// The two bytes of `v`, most significant first.
pub open spec fn to_be16(v: u16) -> Seq<u8> {
    seq![(v / 0x100) as u8, (v % 0x100) as u8]
}

/// The four bytes of `v`, most significant first.
pub open spec fn to_be32(v: u32) -> Seq<u8> {
    seq![
        (v / 0x100_0000) as u8,
        ((v / 0x1_0000) % 0x100) as u8,
        ((v / 0x100) % 0x100) as u8,
        (v % 0x100) as u8,
    ]
}

/// The eight bytes of `v`, most significant first.
pub open spec fn to_be64(v: u64) -> Seq<u8> {
    seq![
        (v / 0x100_0000_0000_0000) as u8,
        ((v / 0x1_0000_0000_0000) % 0x100) as u8,
        ((v / 0x100_0000_0000) % 0x100) as u8,
        ((v / 0x1_0000_0000) % 0x100) as u8,
        ((v / 0x100_0000) % 0x100) as u8,
        ((v / 0x1_0000) % 0x100) as u8,
        ((v / 0x100) % 0x100) as u8,
        (v % 0x100) as u8,
    ]
}

/// The four bytes of `v`, least significant first.
pub open spec fn to_le32(v: u32) -> Seq<u8> {
    seq![
        (v % 0x100) as u8,
        ((v / 0x100) % 0x100) as u8,
        ((v / 0x1_0000) % 0x100) as u8,
        (v / 0x100_0000) as u8,
    ]
}

// ---------------------------------------------------------------- readers

/// The big-endian 16-bit value stored at `b[off..off + 2]`.
pub open spec fn be16(b: Seq<u8>, off: int) -> u16 {
    from_be16(b.subrange(off, off + 2))
}

/// The big-endian 32-bit value stored at `b[off..off + 4]`.
pub open spec fn be32(b: Seq<u8>, off: int) -> u32 {
    from_be32(b.subrange(off, off + 4))
}

/// The big-endian 64-bit value stored at `b[off..off + 8]`.
pub open spec fn be64(b: Seq<u8>, off: int) -> u64 {
    from_be64(b.subrange(off, off + 8))
}

/// The little-endian 32-bit value stored at `b[off..off + 4]`.
pub open spec fn le32(b: Seq<u8>, off: int) -> u32 {
    from_le32(b.subrange(off, off + 4))
}

// ---------------------------------------------------------------- writers

/// `s` with `d` copied over `s[off..off + d.len()]`.
#[verifier::opaque]
pub open spec fn with_bytes(s: Seq<u8>, off: int, d: Seq<u8>) -> Seq<u8> {
    s.subrange(0, off) + d + s.subrange(off + d.len(), s.len() as int)
}

/// `s` with the byte `v` at `s[off]`.
pub open spec fn with_u8(s: Seq<u8>, off: int, v: u8) -> Seq<u8> {
    with_bytes(s, off, seq![v])
}

/// `s` with the big-endian bytes of `v` at `s[off..off + 2]`.
pub open spec fn with_be16(s: Seq<u8>, off: int, v: u16) -> Seq<u8> {
    with_bytes(s, off, to_be16(v))
}

/// `s` with the big-endian bytes of `v` at `s[off..off + 4]`.
pub open spec fn with_be32(s: Seq<u8>, off: int, v: u32) -> Seq<u8> {
    with_bytes(s, off, to_be32(v))
}

/// `s` with the big-endian bytes of `v` at `s[off..off + 8]`.
pub open spec fn with_be64(s: Seq<u8>, off: int, v: u64) -> Seq<u8> {
    with_bytes(s, off, to_be64(v))
}

/// `s` with the little-endian bytes of `v` at `s[off..off + 4]`.
pub open spec fn with_le32(s: Seq<u8>, off: int, v: u32) -> Seq<u8> {
    with_bytes(s, off, to_le32(v))
}

/// `n` zero bytes.
pub open spec fn zeros(n: nat) -> Seq<u8> {
    Seq::new(n, |i: int| 0u8)
}

/// `s` with `s[start..end]` set to zero.
pub open spec fn with_zeros(s: Seq<u8>, start: int, end: int) -> Seq<u8> {
    with_bytes(s, start, zeros((end - start) as nat))
}

// ------------------------------------------------- what a write does

/// A write keeps the length of the buffer.
pub broadcast proof fn lemma_with_bytes_len(s: Seq<u8>, off: int, d: Seq<u8>)
    requires
        0 <= off,
        off + d.len() <= s.len(),
    ensures
        #[trigger] with_bytes(s, off, d).len() == s.len(),
{
    reveal(with_bytes);
}

/// A write, byte by byte.
pub broadcast proof fn lemma_with_bytes_index(s: Seq<u8>, off: int, d: Seq<u8>, i: int)
    requires
        0 <= off,
        off + d.len() <= s.len(),
        0 <= i < s.len(),
    ensures
        #[trigger] with_bytes(s, off, d)[i] == if off <= i < off + d.len() {
            d[i - off]
        } else {
            s[i]
        },
{
    reveal(with_bytes);
}

/// Reading back what was written.
pub broadcast proof fn lemma_with_bytes_same(s: Seq<u8>, off: int, d: Seq<u8>)
    requires
        0 <= off,
        off + d.len() <= s.len(),
    ensures
        #[trigger] with_bytes(s, off, d).subrange(off, off + d.len()) == d,
{
    reveal(with_bytes);
    assert(with_bytes(s, off, d).subrange(off, off + d.len()) =~= d);
}

/// Reading a range that a write did not touch.
pub broadcast proof fn lemma_with_bytes_other(s: Seq<u8>, off: int, d: Seq<u8>, a: int, c: int)
    requires
        0 <= off,
        off + d.len() <= s.len(),
        0 <= a <= c <= s.len(),
        c <= off || off + d.len() <= a,
    ensures
        #[trigger] with_bytes(s, off, d).subrange(a, c) == s.subrange(a, c),
{
    reveal(with_bytes);
    assert(with_bytes(s, off, d).subrange(a, c) =~= s.subrange(a, c));
}

// ------------------------------------------------- numerals read back

/// Decoding the big-endian bytes of `v` gives `v` back.
pub broadcast proof fn lemma_from_to_be16(v: u16)
    ensures
        #[trigger] from_be16(to_be16(v)) == v,
{
    assert((v / 0x100) * 0x100 + v % 0x100 == v) by (bit_vector);
}

/// Decoding the big-endian bytes of `v` gives `v` back.
pub broadcast proof fn lemma_from_to_be32(v: u32)
    ensures
        #[trigger] from_be32(to_be32(v)) == v,
{
    assert((v / 0x100_0000) * 0x100_0000 + ((v / 0x1_0000) % 0x100) * 0x1_0000 + ((v / 0x100)
        % 0x100) * 0x100 + v % 0x100 == v) by (bit_vector);
}

/// Decoding the big-endian bytes of `v` gives `v` back.
pub broadcast proof fn lemma_from_to_be64(v: u64)
    ensures
        #[trigger] from_be64(to_be64(v)) == v,
{
    assert((v / 0x100_0000_0000_0000) * 0x100_0000_0000_0000 + ((v / 0x1_0000_0000_0000)
        % 0x100) * 0x1_0000_0000_0000 + ((v / 0x100_0000_0000) % 0x100) * 0x100_0000_0000 + ((v
        / 0x1_0000_0000) % 0x100) * 0x1_0000_0000 + ((v / 0x100_0000) % 0x100) * 0x100_0000 + ((v
        / 0x1_0000) % 0x100) * 0x1_0000 + ((v / 0x100) % 0x100) * 0x100 + v % 0x100 == v)
        by (bit_vector);
}

/// Decoding the little-endian bytes of `v` gives `v` back.
pub broadcast proof fn lemma_from_to_le32(v: u32)
    ensures
        #[trigger] from_le32(to_le32(v)) == v,
{
    assert(v % 0x100 + ((v / 0x100) % 0x100) * 0x100 + ((v / 0x1_0000) % 0x100) * 0x1_0000 + (v
        / 0x100_0000) * 0x100_0000 == v) by (bit_vector);
}

/// The big-endian bytes of each of the words `w`, in order.
pub open spec fn to_be32_words(w: Seq<u32>) -> Seq<u8>
    decreases w.len(),
{
    if w.len() == 0 {
        Seq::empty()
    } else {
        to_be32_words(w.drop_last()) + to_be32(w.last())
    }
}

/// `s` with the big-endian bytes of the words `w` at `s[off..off + 4 * w.len()]`.
pub open spec fn with_be32_words(s: Seq<u8>, off: int, w: Seq<u32>) -> Seq<u8> {
    with_bytes(s, off, to_be32_words(w))
}

/// The encoding of `k` words takes `4 * k` bytes, and the encoding of word `k`
/// stands at `4 * k`.
pub proof fn lemma_to_be32_words(w: Seq<u32>, k: int)
    ensures
        to_be32_words(w).len() == 4 * w.len(),
        0 <= k < w.len() ==> to_be32_words(w).subrange(4 * k, 4 * k + 4) == to_be32(w[k]),
    decreases w.len(),
{
    if w.len() > 0 {
        lemma_to_be32_words(w.drop_last(), k);
        let p = to_be32_words(w.drop_last());
        assert(to_be32_words(w) == p + to_be32(w.last()));
        assert(p.len() == 4 * (w.len() - 1));
        if 0 <= k < w.len() - 1 {
            assert(w.drop_last()[k] == w[k]);
            assert(to_be32_words(w).subrange(4 * k, 4 * k + 4) =~= p.subrange(4 * k, 4 * k + 4));
        } else if k == w.len() - 1 {
            assert(to_be32_words(w).subrange(4 * k, 4 * k + 4) =~= to_be32(w[k]));
        }
    }
}

/// Reading, inside a written range, part of what was written.
pub proof fn lemma_with_bytes_inside(s: Seq<u8>, off: int, d: Seq<u8>, a: int, c: int)
    requires
        0 <= off,
        off + d.len() <= s.len(),
        0 <= a <= c <= d.len(),
    ensures
        with_bytes(s, off, d).subrange(off + a, off + c) == d.subrange(a, c),
{
    reveal(with_bytes);
    assert(with_bytes(s, off, d).subrange(off + a, off + c) =~= d.subrange(a, c));
}

/// Two writes side by side are one write of both.
pub proof fn lemma_with_bytes_adjacent(s: Seq<u8>, off: int, d1: Seq<u8>, d2: Seq<u8>)
    requires
        0 <= off,
        off + d1.len() + d2.len() <= s.len(),
    ensures
        with_bytes(with_bytes(s, off, d1), off + d1.len(), d2) == with_bytes(s, off, d1 + d2),
{
    reveal(with_bytes);
    assert(with_bytes(with_bytes(s, off, d1), off + d1.len(), d2) =~= with_bytes(
        s,
        off,
        d1 + d2,
    ));
}

/// The facts that reading a field back through a chain of writes needs.
pub broadcast group group_byte_codec {
    lemma_with_bytes_len,
    lemma_with_bytes_same,
    lemma_with_bytes_other,
    lemma_from_to_be16,
    lemma_from_to_be32,
    lemma_from_to_be64,
    lemma_from_to_le32,
}

// ---------------------------------------------------------------- exec

/// Checks that `bytes` holds at least `min_len` bytes.
pub fn require_len(bytes: &[u8], min_len: usize) -> (r: Result<(), ParseError>)
    ensures
        r is Ok <==> bytes@.len() >= min_len,
        r is Err ==> r == Err::<(), ParseError>(
            ParseError::BufferTooSmall { expected: min_len, actual: bytes@.len() as usize },
        ),
{
    if bytes.len() < min_len {
        return Err(ParseError::BufferTooSmall { expected: min_len, actual: bytes.len() });
    }
    Ok(())
}

/// Reads the big-endian `u16` at `bytes[off..off + 2]`.
pub fn be_u16(bytes: &[u8], off: usize) -> (r: u16)
    requires
        off + 2 <= bytes@.len(),
    ensures
        r == be16(bytes@, off as int),
{
    (bytes[off] as u16) * 0x100 + (bytes[off + 1] as u16)
}

/// Reads the big-endian `u32` at `bytes[off..off + 4]`.
pub fn be_u32(bytes: &[u8], off: usize) -> (r: u32)
    requires
        off + 4 <= bytes@.len(),
    ensures
        r == be32(bytes@, off as int),
{
    (bytes[off] as u32) * 0x100_0000 + (bytes[off + 1] as u32) * 0x1_0000 + (bytes[off + 2] as u32)
        * 0x100 + (bytes[off + 3] as u32)
}

/// Reads the big-endian `u64` at `bytes[off..off + 8]`.
pub fn be_u64(bytes: &[u8], off: usize) -> (r: u64)
    requires
        off + 8 <= bytes@.len(),
    ensures
        r == be64(bytes@, off as int),
{
    (bytes[off] as u64) * 0x100_0000_0000_0000 + (bytes[off + 1] as u64) * 0x1_0000_0000_0000 + (
    bytes[off + 2] as u64) * 0x100_0000_0000 + (bytes[off + 3] as u64) * 0x1_0000_0000 + (bytes[off
        + 4] as u64) * 0x100_0000 + (bytes[off + 5] as u64) * 0x1_0000 + (bytes[off + 6] as u64)
        * 0x100 + (bytes[off + 7] as u64)
}

/// Reads the little-endian `u32` at `bytes[off..off + 4]`.
pub fn le_u32(bytes: &[u8], off: usize) -> (r: u32)
    requires
        off + 4 <= bytes@.len(),
    ensures
        r == le32(bytes@, off as int),
{
    (bytes[off] as u32) + (bytes[off + 1] as u32) * 0x100 + (bytes[off + 2] as u32) * 0x1_0000 + (
    bytes[off + 3] as u32) * 0x100_0000
}

/// Writes the byte `value` at `bytes[off]`.
pub fn put_u8(bytes: &mut [u8], off: usize, value: u8)
    requires
        off < old(bytes)@.len(),
    ensures
        final(bytes)@ == with_u8(old(bytes)@, off as int, value),
{
    bytes[off] = value;
    proof {
        reveal(with_bytes);
        assert(bytes@ =~= with_u8(old(bytes)@, off as int, value));
    }
}

/// Writes `value` big-endian at `bytes[off..off + 2]`.
pub fn put_be16(bytes: &mut [u8], off: usize, value: u16)
    requires
        off + 2 <= old(bytes)@.len(),
    ensures
        final(bytes)@ == with_be16(old(bytes)@, off as int, value),
{
    bytes[off] = (value / 0x100) as u8;
    bytes[off + 1] = (value % 0x100) as u8;
    proof {
        reveal(with_bytes);
        assert(bytes@ =~= with_be16(old(bytes)@, off as int, value));
    }
}

/// Writes `value` big-endian at `bytes[off..off + 4]`.
pub fn put_be32(bytes: &mut [u8], off: usize, value: u32)
    requires
        off + 4 <= old(bytes)@.len(),
    ensures
        final(bytes)@ == with_be32(old(bytes)@, off as int, value),
{
    bytes[off] = (value / 0x100_0000) as u8;
    bytes[off + 1] = ((value / 0x1_0000) % 0x100) as u8;
    bytes[off + 2] = ((value / 0x100) % 0x100) as u8;
    bytes[off + 3] = (value % 0x100) as u8;
    proof {
        reveal(with_bytes);
        assert(bytes@ =~= with_be32(old(bytes)@, off as int, value));
    }
}

/// Writes `value` big-endian at `bytes[off..off + 8]`.
pub fn put_be64(bytes: &mut [u8], off: usize, value: u64)
    requires
        off + 8 <= old(bytes)@.len(),
    ensures
        final(bytes)@ == with_be64(old(bytes)@, off as int, value),
{
    bytes[off] = (value / 0x100_0000_0000_0000) as u8;
    bytes[off + 1] = ((value / 0x1_0000_0000_0000) % 0x100) as u8;
    bytes[off + 2] = ((value / 0x100_0000_0000) % 0x100) as u8;
    bytes[off + 3] = ((value / 0x1_0000_0000) % 0x100) as u8;
    bytes[off + 4] = ((value / 0x100_0000) % 0x100) as u8;
    bytes[off + 5] = ((value / 0x1_0000) % 0x100) as u8;
    bytes[off + 6] = ((value / 0x100) % 0x100) as u8;
    bytes[off + 7] = (value % 0x100) as u8;
    proof {
        reveal(with_bytes);
        assert(bytes@ =~= with_be64(old(bytes)@, off as int, value));
    }
}

/// Writes `value` little-endian at `bytes[off..off + 4]`.
pub fn put_le32(bytes: &mut [u8], off: usize, value: u32)
    requires
        off + 4 <= old(bytes)@.len(),
    ensures
        final(bytes)@ == with_le32(old(bytes)@, off as int, value),
{
    bytes[off] = (value % 0x100) as u8;
    bytes[off + 1] = ((value / 0x100) % 0x100) as u8;
    bytes[off + 2] = ((value / 0x1_0000) % 0x100) as u8;
    bytes[off + 3] = (value / 0x100_0000) as u8;
    proof {
        reveal(with_bytes);
        assert(bytes@ =~= with_le32(old(bytes)@, off as int, value));
    }
}

/// Writes the words `words` big-endian, one after the other, from `bytes[off]`.
pub fn put_be32_words(bytes: &mut [u8], off: usize, words: &[u32])
    requires
        off + 4 * words@.len() <= old(bytes)@.len(),
    ensures
        final(bytes)@ == with_be32_words(old(bytes)@, off as int, words@),
{
    broadcast use lemma_with_bytes_len;

    let ghost orig = bytes@;
    let len = bytes.len();
    proof {
        assert(words@.take(0) =~= Seq::<u32>::empty());
        assert(with_bytes(orig, off as int, Seq::empty()) =~= orig) by {
            reveal(with_bytes);
        }
    }
    let mut pos: usize = off;
    let mut i: usize = 0;
    while i < words.len()
        invariant
            off + 4 * words@.len() <= orig.len(),
            orig.len() == len,
            i <= words@.len(),
            pos == off + 4 * i,
            bytes@ == with_be32_words(orig, off as int, words@.take(i as int)),
        decreases words@.len() - i,
    {
        let ghost before = words@.take(i as int);
        proof {
            lemma_to_be32_words(before, 0);
            lemma_with_bytes_len(orig, off as int, to_be32_words(before));
        }
        put_be32(bytes, pos, words[i]);
        proof {
            let t = words@.take(i + 1);
            assert(t.drop_last() =~= before);
            assert(to_be32_words(t) == to_be32_words(before) + to_be32(words@[i as int]));
            lemma_with_bytes_adjacent(orig, off as int, to_be32_words(before), to_be32(words@[i as int]));
        }
        pos = pos + 4;
        i = i + 1;
    }
    proof {
        assert(words@.take(words@.len() as int) =~= words@);
    }
}

/// Copies `src` over `bytes[off..off + src.len()]`.
pub fn put_bytes(bytes: &mut [u8], off: usize, src: &[u8])
    requires
        off + src@.len() <= old(bytes)@.len(),
    ensures
        final(bytes)@ == with_bytes(old(bytes)@, off as int, src@),
{
    let ghost orig = bytes@;
    let len = bytes.len();
    let mut i: usize = 0;
    while i < src.len()
        invariant
            off + src@.len() <= orig.len(),
            orig.len() == len,
            i <= src@.len(),
            bytes@.len() == orig.len(),
            forall|j: int|
                0 <= j < orig.len() ==> #[trigger] bytes@[j] == if off <= j < off + i {
                    src@[j - off]
                } else {
                    orig[j]
                },
        decreases src@.len() - i,
    {
        bytes[off + i] = src[i];
        i = i + 1;
    }
    proof {
        reveal(with_bytes);
        assert(bytes@ =~= with_bytes(orig, off as int, src@));
    }
}

/// Sets `bytes[start..end]` to zero.
pub fn fill_zero(bytes: &mut [u8], start: usize, end: usize)
    requires
        start <= end <= old(bytes)@.len(),
    ensures
        final(bytes)@ == with_zeros(old(bytes)@, start as int, end as int),
{
    let ghost orig = bytes@;
    let mut i: usize = start;
    while i < end
        invariant
            start <= i <= end <= orig.len(),
            bytes@.len() == orig.len(),
            forall|j: int|
                0 <= j < orig.len() ==> #[trigger] bytes@[j] == if start <= j < i {
                    0u8
                } else {
                    orig[j]
                },
        decreases end - i,
    {
        bytes[i] = 0;
        i = i + 1;
    }
    proof {
        reveal(with_bytes);
        assert(bytes@ =~= with_zeros(orig, start as int, end as int));
    }
}

/// Copies `bytes[off..off + N]` into `dst`.
pub fn copy_out<const N: usize>(dst: &mut [u8; N], bytes: &[u8], off: usize)
    requires
        off + N <= bytes@.len(),
    ensures
        final(dst)@ == bytes@.subrange(off as int, off + N),
{
    let len = bytes.len();
    let mut i: usize = 0;
    while i < N
        invariant
            off + N <= bytes@.len(),
            bytes@.len() == len,
            i <= N,
            dst@.len() == N,
            forall|j: int| 0 <= j < i ==> #[trigger] dst@[j] == bytes@[off + j],
        decreases N - i,
    {
        dst[i] = bytes[off + i];
        i = i + 1;
    }
    assert(dst@ =~= bytes@.subrange(off as int, off + N));
}

} // verus!
