//! The allocation group free-space header (AGF).
use crate::endian::{
    be32, be64, be_u32, be_u64, copy_out, fill_zero, group_byte_codec, put_be32, put_be64,
    put_bytes, with_be32, with_be64, with_bytes, with_zeros,
};
use crate::error::ParseError;
use vstd::prelude::*;

verus! {

broadcast use group_byte_codec;

/// The magic number of an AGF ("XAGF").
pub const XFS_AGF_MAGIC: u32 = 0x5841_4746;

/// The AGF version this library reads.
pub const XFS_AGF_VERSION: u32 = 1;

/// The size of an AGF.
pub const XFS_AGF_SIZE: usize = 224;

/// The offset of the checksum in an AGF.
pub const XFS_AGF_CRC_OFF: usize = 216;

#[derive(Debug, Clone, Copy, PartialEq, Eq)]
pub struct Agf {
    pub seqno: u32,
    pub length: u32,
    pub bno_root: u32,
    pub cnt_root: u32,
    pub rmap_root: u32,
    pub bno_level: u32,
    pub cnt_level: u32,
    pub rmap_level: u32,
    pub flfirst: u32,
    pub fllast: u32,
    pub flcount: u32,
    pub freeblks: u32,
    pub longest: u32,
    pub btreeblks: u32,
    pub uuid: [u8; 16],
    pub rmap_blocks: u32,
    pub refcount_blocks: u32,
    pub refcount_root: u32,
    pub refcount_level: u32,
    pub lsn: u64,
    pub crc: u32,
}

/// Why `b` does not hold an AGF, or `None` when it does.
pub open spec fn agf_error(b: Seq<u8>) -> Option<ParseError> {
    if b.len() < XFS_AGF_SIZE {
        Some(ParseError::BufferTooSmall { expected: XFS_AGF_SIZE, actual: b.len() as usize })
    } else if be32(b, 0) != XFS_AGF_MAGIC {
        Some(ParseError::InvalidMagic { expected: XFS_AGF_MAGIC, actual: be32(b, 0) })
    } else if be32(b, 4) != XFS_AGF_VERSION {
        Some(ParseError::UnsupportedVersion(be32(b, 4)))
    } else {
        None
    }
}

/// `a` holds the fields of the AGF stored in `b`.
pub open spec fn agf_decodes_to(b: Seq<u8>, a: Agf) -> bool {
    &&& a.seqno == be32(b, 8)
    &&& a.length == be32(b, 12)
    &&& a.bno_root == be32(b, 16)
    &&& a.cnt_root == be32(b, 20)
    &&& a.rmap_root == be32(b, 24)
    &&& a.bno_level == be32(b, 28)
    &&& a.cnt_level == be32(b, 32)
    &&& a.rmap_level == be32(b, 36)
    &&& a.flfirst == be32(b, 40)
    &&& a.fllast == be32(b, 44)
    &&& a.flcount == be32(b, 48)
    &&& a.freeblks == be32(b, 52)
    &&& a.longest == be32(b, 56)
    &&& a.btreeblks == be32(b, 60)
    &&& a.uuid@ == b.subrange(64, 80)
    &&& a.rmap_blocks == be32(b, 80)
    &&& a.refcount_blocks == be32(b, 84)
    &&& a.refcount_root == be32(b, 88)
    &&& a.refcount_level == be32(b, 92)
    &&& a.lsn == be64(b, 208)
    &&& a.crc == be32(b, 216)
}

/// `b` after `a` has been written over its first [`XFS_AGF_SIZE`] bytes: every
/// field but the checksum, with the reserved bytes `96..208` zeroed.
pub open spec fn agf_image(a: Agf, b: Seq<u8>) -> Seq<u8> {
    let s = with_be32(b, 0, XFS_AGF_MAGIC);
    let s = with_be32(s, 4, XFS_AGF_VERSION);
    let s = with_be32(s, 8, a.seqno);
    let s = with_be32(s, 12, a.length);
    let s = with_be32(s, 16, a.bno_root);
    let s = with_be32(s, 20, a.cnt_root);
    let s = with_be32(s, 24, a.rmap_root);
    let s = with_be32(s, 28, a.bno_level);
    let s = with_be32(s, 32, a.cnt_level);
    let s = with_be32(s, 36, a.rmap_level);
    let s = with_be32(s, 40, a.flfirst);
    let s = with_be32(s, 44, a.fllast);
    let s = with_be32(s, 48, a.flcount);
    let s = with_be32(s, 52, a.freeblks);
    let s = with_be32(s, 56, a.longest);
    let s = with_be32(s, 60, a.btreeblks);
    let s = with_bytes(s, 64, a.uuid@);
    let s = with_be32(s, 80, a.rmap_blocks);
    let s = with_be32(s, 84, a.refcount_blocks);
    let s = with_be32(s, 88, a.refcount_root);
    let s = with_be32(s, 92, a.refcount_level);
    let s = with_zeros(s, 96, 208);
    with_be64(s, 208, a.lsn)
}

/// What is written is read back: decoding the image of `a` succeeds and gives
/// `a`, except for the checksum, which the image leaves as `b` had it.
pub proof fn lemma_agf_roundtrip(a: Agf, b: Seq<u8>)
    requires
        b.len() >= XFS_AGF_SIZE,
    ensures
        agf_image(a, b).len() == b.len(),
        agf_error(agf_image(a, b)) is None,
        agf_decodes_to(agf_image(a, b), Agf { crc: be32(b, 216), ..a }),
{
    let img = agf_image(a, b);
    assert(img.subrange(64, 80) =~= a.uuid@);
}

/// Decoding is deterministic: bytes decode to at most one AGF.
pub proof fn lemma_agf_decode_unique(b: Seq<u8>, x: Agf, y: Agf)
    requires
        agf_decodes_to(b, x),
        agf_decodes_to(b, y),
    ensures
        x == y,
{
    broadcast use vstd::array::axiom_array_ext_equal, vstd::array::lemma_array_index;

    assert(x.uuid =~= y.uuid);
}

/// Decoding reads only the first [`XFS_AGF_SIZE`] bytes: any longer prefix
/// of the bytes decodes as they do.
pub proof fn lemma_agf_decode_prefix(b: Seq<u8>, n: int, x: Agf)
    requires
        XFS_AGF_SIZE <= n <= b.len(),
        agf_decodes_to(b, x),
    ensures
        agf_decodes_to(b.subrange(0, n), x),
        agf_error(b.subrange(0, n)) == agf_error(b),
{
    let p = b.subrange(0, n);
    assert forall|a: int, c: int| 0 <= a <= c <= n implies #[trigger] p.subrange(a, c) == b.subrange(a, c) by {
        assert(p.subrange(a, c) =~= b.subrange(a, c));
    }
}

impl Agf {
    /// Decodes an AGF from the first [`XFS_AGF_SIZE`] bytes of `bytes`.
    ///
    /// # Errors
    ///
    /// * [`ParseError::BufferTooSmall`] - fewer than [`XFS_AGF_SIZE`] bytes.
    /// * [`ParseError::InvalidMagic`] - the magic number is not [`XFS_AGF_MAGIC`].
    /// * [`ParseError::UnsupportedVersion`] - the version is not [`XFS_AGF_VERSION`].
    pub fn parse(bytes: &[u8]) -> (r: Result<Self, ParseError>)
        ensures
            match r {
                Ok(a) => agf_error(bytes@) is None && agf_decodes_to(bytes@, a),
                Err(e) => agf_error(bytes@) == Some(e),
            },
    {
        if bytes.len() < XFS_AGF_SIZE {
            return Err(ParseError::BufferTooSmall { expected: XFS_AGF_SIZE, actual: bytes.len() });
        }
        let magic = be_u32(bytes, 0);
        if magic != XFS_AGF_MAGIC {
            return Err(ParseError::InvalidMagic { expected: XFS_AGF_MAGIC, actual: magic });
        }
        let version = be_u32(bytes, 4);
        if version != XFS_AGF_VERSION {
            return Err(ParseError::UnsupportedVersion(version));
        }
        let mut uuid = [0u8; 16];
        copy_out(&mut uuid, bytes, 64);
        Ok(
            Self {
                seqno: be_u32(bytes, 8),
                length: be_u32(bytes, 12),
                bno_root: be_u32(bytes, 16),
                cnt_root: be_u32(bytes, 20),
                rmap_root: be_u32(bytes, 24),
                bno_level: be_u32(bytes, 28),
                cnt_level: be_u32(bytes, 32),
                rmap_level: be_u32(bytes, 36),
                flfirst: be_u32(bytes, 40),
                fllast: be_u32(bytes, 44),
                flcount: be_u32(bytes, 48),
                freeblks: be_u32(bytes, 52),
                longest: be_u32(bytes, 56),
                btreeblks: be_u32(bytes, 60),
                uuid,
                rmap_blocks: be_u32(bytes, 80),
                refcount_blocks: be_u32(bytes, 84),
                refcount_root: be_u32(bytes, 88),
                refcount_level: be_u32(bytes, 92),
                lsn: be_u64(bytes, 208),
                crc: be_u32(bytes, 216),
            },
        )
    }

    /// Encodes the AGF into the first [`XFS_AGF_SIZE`] bytes of `bytes`. The
    /// checksum field is left for [`crate::crc::write_xfs_crc`].
    ///
    /// # Errors
    ///
    /// * [`ParseError::BufferTooSmall`] - fewer than [`XFS_AGF_SIZE`] bytes;
    ///   `bytes` is then left alone.
    pub fn serialize(&self, bytes: &mut [u8]) -> (r: Result<(), ParseError>)
        ensures
            final(bytes)@.len() == old(bytes)@.len(),
            match r {
                Ok(()) => old(bytes)@.len() >= XFS_AGF_SIZE && final(bytes)@ == agf_image(
                    *self,
                    old(bytes)@,
                ),
                Err(e) => old(bytes)@.len() < XFS_AGF_SIZE && e == ParseError::BufferTooSmall {
                    expected: XFS_AGF_SIZE,
                    actual: old(bytes)@.len() as usize,
                } && final(bytes)@ == old(bytes)@,
            },
    {
        if bytes.len() < XFS_AGF_SIZE {
            return Err(ParseError::BufferTooSmall { expected: XFS_AGF_SIZE, actual: bytes.len() });
        }
        put_be32(bytes, 0, XFS_AGF_MAGIC);
        put_be32(bytes, 4, XFS_AGF_VERSION);
        put_be32(bytes, 8, self.seqno);
        put_be32(bytes, 12, self.length);
        put_be32(bytes, 16, self.bno_root);
        put_be32(bytes, 20, self.cnt_root);
        put_be32(bytes, 24, self.rmap_root);
        put_be32(bytes, 28, self.bno_level);
        put_be32(bytes, 32, self.cnt_level);
        put_be32(bytes, 36, self.rmap_level);
        put_be32(bytes, 40, self.flfirst);
        put_be32(bytes, 44, self.fllast);
        put_be32(bytes, 48, self.flcount);
        put_be32(bytes, 52, self.freeblks);
        put_be32(bytes, 56, self.longest);
        put_be32(bytes, 60, self.btreeblks);
        put_bytes(bytes, 64, self.uuid.as_slice());
        put_be32(bytes, 80, self.rmap_blocks);
        put_be32(bytes, 84, self.refcount_blocks);
        put_be32(bytes, 88, self.refcount_root);
        put_be32(bytes, 92, self.refcount_level);
        fill_zero(bytes, 96, 208);
        put_be64(bytes, 208, self.lsn);
        Ok(())
    }
}

} // verus!
