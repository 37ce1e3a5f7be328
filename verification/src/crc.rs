//! CRC32C (Castagnoli, reflected polynomial `0x82f63b78`) and the XFS
//! checksum convention built on it: the checksum of a metadata block is the
//! inverted CRC32C of the block with its four checksum bytes read as zero,
//! stored little-endian in those four bytes.
use crate::endian::{
    from_le32, group_byte_codec, le32, le_u32, lemma_with_bytes_index, put_le32, with_bytes, with_le32,
    with_zeros, zeros,
};
use vstd::prelude::*;

verus! {

broadcast use group_byte_codec, lemma_with_bytes_index;

/// The initial CRC value that XFS feeds to CRC32C.
pub const XFS_CRC_SEED: u32 = 0xffff_ffff;

/// The reflected CRC32C polynomial.
pub const CRC32C_POLY: u32 = 0x82f6_3b78;

/// One bit step of the reflected CRC register.
pub open spec fn crc32c_step(c: u32) -> u32 {
    if c & 1 == 1 {
        (c >> 1) ^ CRC32C_POLY
    } else {
        c >> 1
    }
}

/// `n` bit steps of the register.
pub open spec fn crc32c_shift(c: u32, n: nat) -> u32
    decreases n,
{
    if n == 0 {
        c
    } else {
        crc32c_step(crc32c_shift(c, (n - 1) as nat))
    }
}

/// The register after absorbing one byte.
pub open spec fn crc32c_byte(c: u32, b: u8) -> u32 {
    crc32c_shift(c ^ (b as u32), 8)
}

/// The register after absorbing `data`, byte by byte from the first, starting
/// from `c`.
pub open spec fn crc32c_of(c: u32, data: Seq<u8>) -> u32
    decreases data.len(),
{
    if data.len() == 0 {
        c
    } else {
        crc32c_byte(crc32c_of(c, data.drop_last()), data.last())
    }
}

/// The XFS checksum of the block `b` whose checksum field is `b[off..off + 4]`.
pub open spec fn xfs_checksum(b: Seq<u8>, off: int) -> u32 {
    !crc32c_of(XFS_CRC_SEED, with_zeros(b, off, off + 4))
}

/// The block `b` holds, at `off`, the XFS checksum of its contents.
pub open spec fn xfs_crc_ok(b: Seq<u8>, off: int) -> bool {
    &&& 0 <= off
    &&& off + 4 <= b.len()
    &&& le32(b, off) == xfs_checksum(b, off)
}

/// `b` with its checksum field at `off` set to the XFS checksum of its contents.
pub open spec fn with_xfs_crc(b: Seq<u8>, off: int) -> Seq<u8> {
    with_le32(b, off, xfs_checksum(b, off))
}

/// CRC32C runs over a concatenation as over its parts in turn: feeding `a + b`
/// to the register gives what feeding `b` gives after `a`.
pub proof fn lemma_crc32c_append(c: u32, a: Seq<u8>, b: Seq<u8>)
    ensures
        crc32c_of(c, a + b) == crc32c_of(crc32c_of(c, a), b),
    decreases b.len(),
{
    if b.len() == 0 {
        assert(a + b =~= a);
    } else {
        assert((a + b).drop_last() =~= a + b.drop_last());
        assert((a + b).last() == b.last());
        lemma_crc32c_append(c, a, b.drop_last());
    }
}

/// The bit step of the register loses nothing: different registers step to
/// different registers.
proof fn lemma_step_injective(a: u32, b: u32)
    ensures
        crc32c_step(a) == crc32c_step(b) ==> a == b,
{
    assert(((if a & 1 == 1 { (a >> 1) ^ 0x82f6_3b78u32 } else { a >> 1 }) == (if b & 1 == 1 {
        (b >> 1) ^ 0x82f6_3b78u32
    } else {
        b >> 1
    })) ==> a == b) by (bit_vector);
}

/// Neither do `n` bit steps.
proof fn lemma_shift_injective(a: u32, b: u32, n: nat)
    ensures
        crc32c_shift(a, n) == crc32c_shift(b, n) ==> a == b,
    decreases n,
{
    if n > 0 {
        lemma_step_injective(crc32c_shift(a, (n - 1) as nat), crc32c_shift(b, (n - 1) as nat));
        lemma_shift_injective(a, b, (n - 1) as nat);
    }
}

/// Absorbing a byte keeps registers apart, and tells different bytes apart.
proof fn lemma_byte_injective(a: u32, b: u32, x: u8, y: u8)
    ensures
        crc32c_byte(a, x) == crc32c_byte(b, y) ==> a ^ (x as u32) == b ^ (y as u32),
{
    lemma_shift_injective(a ^ (x as u32), b ^ (y as u32), 8);
}

/// Absorbing the same bytes keeps different registers apart.
proof fn lemma_crc32c_of_injective(a: u32, b: u32, q: Seq<u8>)
    ensures
        crc32c_of(a, q) == crc32c_of(b, q) ==> a == b,
    decreases q.len(),
{
    if q.len() > 0 {
        let x = q.last();
        lemma_byte_injective(crc32c_of(a, q.drop_last()), crc32c_of(b, q.drop_last()), x, x);
        let u = crc32c_of(a, q.drop_last());
        let v = crc32c_of(b, q.drop_last());
        assert(u ^ (x as u32) == v ^ (x as u32) ==> u == v) by (bit_vector);
        lemma_crc32c_of_injective(a, b, q.drop_last());
    }
}

/// Changing one byte of what is fed to the register changes the register.
proof fn lemma_crc32c_of_byte_change(c: u32, z: Seq<u8>, i: int, v: u8)
    requires
        0 <= i < z.len(),
        v != z[i],
    ensures
        crc32c_of(c, z.update(i, v)) != crc32c_of(c, z),
{
    let w = z.update(i, v);
    let p = z.take(i);
    let q = z.skip(i + 1);
    assert(z =~= p + seq![z[i]] + q);
    assert(w =~= p + seq![v] + q);
    lemma_crc32c_append(c, p + seq![z[i]], q);
    lemma_crc32c_append(c, p + seq![v], q);
    lemma_crc32c_append(c, p, seq![z[i]]);
    lemma_crc32c_append(c, p, seq![v]);
    let r = crc32c_of(c, p);
    assert(seq![z[i]].drop_last() =~= Seq::<u8>::empty());
    assert(seq![v].drop_last() =~= Seq::<u8>::empty());
    assert(crc32c_of(r, Seq::<u8>::empty()) == r);
    assert(seq![z[i]].last() == z[i]);
    assert(seq![v].last() == v);
    assert(crc32c_of(r, seq![z[i]]) == crc32c_byte(r, z[i]));
    assert(crc32c_of(r, seq![v]) == crc32c_byte(r, v));
    lemma_byte_injective(r, r, z[i], v);
    let x = z[i];
    assert(r ^ (x as u32) == r ^ (v as u32) ==> x == v) by (bit_vector);
    lemma_crc32c_of_injective(crc32c_byte(r, x), crc32c_byte(r, v), q);
}

/// A block whose checksum verifies stops verifying when any one of its bytes
/// changes: inside the checksum field the stored value changes, elsewhere
/// the checksum of the contents does.
pub proof fn lemma_crc_detects_byte_change(b: Seq<u8>, off: int, i: int, v: u8)
    requires
        xfs_crc_ok(b, off),
        0 <= i < b.len(),
        v != b[i],
    ensures
        !xfs_crc_ok(b.update(i, v), off),
{
    let w = b.update(i, v);
    if off <= i < off + 4 {
        assert(with_zeros(w, off, off + 4) =~= with_zeros(b, off, off + 4));
        let d = b.subrange(off, off + 4);
        let e = w.subrange(off, off + 4);
        assert(e[i - off] == v && d[i - off] == b[i]);
        assert forall|j: int| 0 <= j < 4 && j != i - off implies e[j] == d[j] by {}
        assert(from_le32(e) != from_le32(d));
        assert(le32(w, off) != le32(b, off));
        assert(xfs_checksum(w, off) == xfs_checksum(b, off));
    } else {
        let z = with_zeros(b, off, off + 4);
        assert(with_zeros(w, off, off + 4) =~= z.update(i, v));
        assert(z[i] == b[i]);
        lemma_crc32c_of_byte_change(XFS_CRC_SEED, z, i, v);
        let c1 = crc32c_of(XFS_CRC_SEED, z.update(i, v));
        let c2 = crc32c_of(XFS_CRC_SEED, z);
        assert(c1 != c2 ==> !c1 != !c2) by (bit_vector);
        assert(xfs_checksum(w, off) != xfs_checksum(b, off));
        assert(w.subrange(off, off + 4) =~= b.subrange(off, off + 4));
        assert(le32(w, off) == le32(b, off));
    }
}

/// The checksum of a block does not depend on what its checksum field holds.
pub proof fn lemma_xfs_checksum_ignores_field(b: Seq<u8>, off: int, v: u32)
    requires
        0 <= off,
        off + 4 <= b.len(),
    ensures
        xfs_checksum(with_le32(b, off, v), off) == xfs_checksum(b, off),
{
    assert(with_zeros(with_le32(b, off, v), off, off + 4) =~= with_zeros(b, off, off + 4));
}

/// What [`write_xfs_crc`] writes, [`verify_xfs_crc`] accepts: a block whose
/// checksum field has been set to its checksum verifies.
pub proof fn lemma_written_crc_verifies(b: Seq<u8>, off: int)
    requires
        0 <= off,
        off + 4 <= b.len(),
    ensures
        xfs_crc_ok(with_xfs_crc(b, off), off),
        with_xfs_crc(b, off).len() == b.len(),
{
    lemma_xfs_checksum_ignores_field(b, off, xfs_checksum(b, off));
}

/// Setting the checksum leaves every byte outside the checksum field alone.
pub proof fn lemma_written_crc_frame(b: Seq<u8>, off: int, i: int)
    requires
        0 <= off,
        off + 4 <= b.len(),
        0 <= i < b.len(),
        !(off <= i < off + 4),
    ensures
        with_xfs_crc(b, off)[i] == b[i],
{
}

/// A block that verifies keeps its checksum when the checksum is written again:
/// writing the checksum is idempotent.
pub proof fn lemma_crc_write_idempotent(b: Seq<u8>, off: int)
    requires
        xfs_crc_ok(b, off),
    ensures
        with_xfs_crc(b, off) == b,
{
    let w = with_xfs_crc(b, off);
    assert(w =~= b) by {
        assert forall|i: int| 0 <= i < b.len() implies w[i] == b[i] by {
            if off <= i < off + 4 {
                let v = le32(b, off);
                assert(v % 0x100 == b[off] && (v / 0x100) % 0x100 == b[off + 1] && (v / 0x1_0000)
                    % 0x100 == b[off + 2] && v / 0x100_0000 == b[off + 3]) by {
                    let b0 = b[off];
                    let b1 = b[off + 1];
                    let b2 = b[off + 2];
                    let b3 = b[off + 3];
                    assert(v == (b0 + b1 * 0x100 + b2 * 0x1_0000 + b3 * 0x100_0000) as u32);
                    lemma_le32_digits(b0, b1, b2, b3);
                }
            }
        }
    }
}

proof fn lemma_le32_digits(b0: u8, b1: u8, b2: u8, b3: u8)
    ensures
        ({
            let v = (b0 + b1 * 0x100 + b2 * 0x1_0000 + b3 * 0x100_0000) as u32;
            &&& v % 0x100 == b0
            &&& (v / 0x100) % 0x100 == b1
            &&& (v / 0x1_0000) % 0x100 == b2
            &&& v / 0x100_0000 == b3
        }),
{
    let v = (b0 + b1 * 0x100 + b2 * 0x1_0000 + b3 * 0x100_0000) as u32;
    assert(v == b0 as u32 + (b1 as u32) * 0x100 + (b2 as u32) * 0x1_0000 + (b3 as u32)
        * 0x100_0000);
    assert(v == b0 as u32 + (b1 as u32) * 0x100 + (b2 as u32) * 0x1_0000 + (b3 as u32)
        * 0x100_0000 ==> v % 0x100 == b0 && (v / 0x100) % 0x100 == b1 && (v / 0x1_0000) % 0x100
        == b2 && v / 0x100_0000 == b3) by (bit_vector);
}

/// Feeds `data` to the CRC32C register `crc` and returns the register.
///
/// No inversion is applied on either side: XFS starts from [`XFS_CRC_SEED`]
/// and inverts the result itself.
pub fn crc32c(crc: u32, data: &[u8]) -> (r: u32)
    ensures
        r == crc32c_of(crc, data@),
{
    let mut crc = crc;
    let ghost c0 = crc;
    let mut i: usize = 0;
    while i < data.len()
        invariant
            i <= data@.len(),
            crc == crc32c_of(c0, data@.take(i as int)),
        decreases data@.len() - i,
    {
        let ghost before = crc;
        crc = crc ^ (data[i] as u32);
        let ghost x = crc;
        let mut k: usize = 0;
        while k < 8
            invariant
                k <= 8,
                crc == crc32c_shift(x, k as nat),
            decreases 8 - k,
        {
            crc = if crc & 1 == 1 {
                (crc >> 1) ^ CRC32C_POLY
            } else {
                crc >> 1
            };
            k = k + 1;
        }
        proof {
            let t = data@.take(i + 1);
            assert(t.drop_last() =~= data@.take(i as int));
            assert(t.last() == data@[i as int]);
        }
        i = i + 1;
    }
    assert(data@.take(data@.len() as int) =~= data@);
    crc
}

/// Checks the XFS checksum of `bytes`, whose checksum field is at
/// `bytes[cksum_offset..cksum_offset + 4]`. A buffer too short to hold the
/// field does not verify.
pub fn verify_xfs_crc(bytes: &[u8], cksum_offset: usize) -> (r: bool)
    ensures
        r == xfs_crc_ok(bytes@, cksum_offset as int),
{
    let len = bytes.len();
    if len < 4 || cksum_offset > len - 4 {
        return false;
    }
    let zero_field: [u8; 4] = [0u8; 4];
    let mut crc = crc32c(XFS_CRC_SEED, &bytes[0..cksum_offset]);
    crc = crc32c(crc, zero_field.as_slice());
    crc = crc32c(crc, &bytes[cksum_offset + 4..len]);
    let expected = !crc;
    let actual = le_u32(bytes, cksum_offset);
    proof {
        let b = bytes@;
        let off = cksum_offset as int;
        let head = b.subrange(0, off);
        let tail = b.subrange(off + 4, b.len() as int);
        assert(zero_field@ =~= zeros(4));
        lemma_crc32c_append(XFS_CRC_SEED, head, zeros(4));
        lemma_crc32c_append(XFS_CRC_SEED, head + zeros(4), tail);
        reveal(with_bytes);
        assert(with_zeros(b, off, off + 4) =~= head + zeros(4) + tail);
    }
    expected == actual
}

/// Writes the XFS checksum of `bytes` into its checksum field at
/// `bytes[cksum_offset..cksum_offset + 4]`. A buffer too short to hold the
/// field is left alone.
pub fn write_xfs_crc(bytes: &mut [u8], cksum_offset: usize)
    ensures
        cksum_offset + 4 <= old(bytes)@.len() ==> final(bytes)@ == with_xfs_crc(
            old(bytes)@,
            cksum_offset as int,
        ),
        cksum_offset + 4 > old(bytes)@.len() ==> final(bytes)@ == old(bytes)@,
{
    let len = bytes.len();
    if len < 4 || cksum_offset > len - 4 {
        return ;
    }
    let ghost orig = bytes@;
    put_le32(bytes, cksum_offset, 0);
    let crc = crc32c(XFS_CRC_SEED, bytes);
    proof {
        let off = cksum_offset as int;
        assert(bytes@ =~= with_zeros(orig, off, off + 4)) by {
            reveal(with_bytes);
        }
        assert(with_zeros(bytes@, off, off + 4) =~= bytes@);
    }
    put_le32(bytes, cksum_offset, !crc);
    proof {
        let off = cksum_offset as int;
        assert(bytes@ =~= with_xfs_crc(orig, off));
    }
}

} // verus!
