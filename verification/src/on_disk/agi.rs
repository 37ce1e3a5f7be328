//! The allocation group inode header (AGI).
use crate::endian::{
    be32, be64, be_u32, be_u64, copy_out, group_byte_codec, lemma_to_be32_words,
    lemma_with_bytes_inside, put_be32, put_be32_words, put_be64, put_bytes, to_be32_words, with_be32, with_be32_words, with_be64, with_bytes,
};
use crate::error::ParseError;
use vstd::prelude::*;

verus! {

broadcast use group_byte_codec;

/// The magic number of an AGI ("XAGI").
pub const XFS_AGI_MAGIC: u32 = 0x5841_4749;

/// The AGI version this library reads.
pub const XFS_AGI_VERSION: u32 = 1;

/// The number of unlinked-inode hash buckets in an AGI.
pub const XFS_AGI_UNLINKED_BUCKETS: usize = 64;

/// The size of an AGI.
pub const XFS_AGI_SIZE: usize = 344;

/// The offset of the checksum in an AGI.
pub const XFS_AGI_CRC_OFF: usize = 312;

#[derive(Debug, Clone, Copy, PartialEq, Eq)]
pub struct Agi {
    pub seqno: u32,
    pub length: u32,
    pub count: u32,
    pub root: u32,
    pub level: u32,
    pub freecount: u32,
    pub newino: u32,
    pub dirino: u32,
    pub unlinked: [u32; 64],
    pub uuid: [u8; 16],
    pub crc: u32,
    pub lsn: u64,
    pub free_root: u32,
    pub free_level: u32,
    pub iblocks: u32,
    pub fblocks: u32,
}

/// Why `b` does not hold an AGI, or `None` when it does.
pub open spec fn agi_error(b: Seq<u8>) -> Option<ParseError> {
    if b.len() < XFS_AGI_SIZE {
        Some(ParseError::BufferTooSmall { expected: XFS_AGI_SIZE, actual: b.len() as usize })
    } else if be32(b, 0) != XFS_AGI_MAGIC {
        Some(ParseError::InvalidMagic { expected: XFS_AGI_MAGIC, actual: be32(b, 0) })
    } else if be32(b, 4) != XFS_AGI_VERSION {
        Some(ParseError::UnsupportedVersion(be32(b, 4)))
    } else {
        None
    }
}

/// `a` holds the fields of the AGI stored in `b`; the unlinked bucket `i`
/// stands at `40 + 4 * i`.
pub open spec fn agi_decodes_to(b: Seq<u8>, a: Agi) -> bool {
    &&& a.seqno == be32(b, 8)
    &&& a.length == be32(b, 12)
    &&& a.count == be32(b, 16)
    &&& a.root == be32(b, 20)
    &&& a.level == be32(b, 24)
    &&& a.freecount == be32(b, 28)
    &&& a.newino == be32(b, 32)
    &&& a.dirino == be32(b, 36)
    &&& forall|i: int| 0 <= i < 64 ==> #[trigger] a.unlinked[i] == be32(b, 40 + 4 * i)
    &&& a.uuid@ == b.subrange(296, 312)
    &&& a.crc == be32(b, 312)
    &&& a.lsn == be64(b, 320)
    &&& a.free_root == be32(b, 328)
    &&& a.free_level == be32(b, 332)
    &&& a.iblocks == be32(b, 336)
    &&& a.fblocks == be32(b, 340)
}

/// `b` after `a` has been written over its first [`XFS_AGI_SIZE`] bytes (the
/// checksum field is left as it was).
pub open spec fn agi_image(a: Agi, b: Seq<u8>) -> Seq<u8> {
    let s = with_be32(b, 0, XFS_AGI_MAGIC);
    let s = with_be32(s, 4, XFS_AGI_VERSION);
    let s = with_be32(s, 8, a.seqno);
    let s = with_be32(s, 12, a.length);
    let s = with_be32(s, 16, a.count);
    let s = with_be32(s, 20, a.root);
    let s = with_be32(s, 24, a.level);
    let s = with_be32(s, 28, a.freecount);
    let s = with_be32(s, 32, a.newino);
    let s = with_be32(s, 36, a.dirino);
    let s = with_be32_words(s, 40, a.unlinked@);
    let s = with_bytes(s, 296, a.uuid@);
    let s = with_be64(s, 320, a.lsn);
    let s = with_be32(s, 328, a.free_root);
    let s = with_be32(s, 332, a.free_level);
    let s = with_be32(s, 336, a.iblocks);
    with_be32(s, 340, a.fblocks)
}

/// What is written is read back: decoding the image of `a` succeeds and gives
/// `a`, with the checksum that the image left as `b` had it.
pub proof fn lemma_agi_roundtrip(a: Agi, b: Seq<u8>)
    requires
        b.len() >= XFS_AGI_SIZE,
    ensures
        agi_image(a, b).len() == b.len(),
        agi_error(agi_image(a, b)) is None,
        agi_decodes_to(agi_image(a, b), Agi { crc: be32(b, 312), ..a }),
{
    let w = a.unlinked@;
    lemma_to_be32_words(w, 0);
    let s = with_be32(b, 0, XFS_AGI_MAGIC);
    let s = with_be32(s, 4, XFS_AGI_VERSION);
    let s = with_be32(s, 8, a.seqno);
    let s = with_be32(s, 12, a.length);
    let s = with_be32(s, 16, a.count);
    let s = with_be32(s, 20, a.root);
    let s = with_be32(s, 24, a.level);
    let s = with_be32(s, 28, a.freecount);
    let s = with_be32(s, 32, a.newino);
    let s40 = with_be32(s, 36, a.dirino);
    let img = agi_image(a, b);
    assert forall|i: int| 0 <= i < 64 implies #[trigger] a.unlinked[i] == be32(img, 40 + 4 * i) by {
        lemma_to_be32_words(w, i);
        lemma_with_bytes_inside(s40, 40, to_be32_words(w), 4 * i, 4 * i + 4);
    }
}

impl Agi {
    /// Decodes an AGI from the first [`XFS_AGI_SIZE`] bytes of `bytes`.
    ///
    /// # Errors
    ///
    /// * [`ParseError::BufferTooSmall`] - fewer than [`XFS_AGI_SIZE`] bytes.
    /// * [`ParseError::InvalidMagic`] - the magic number is not [`XFS_AGI_MAGIC`].
    /// * [`ParseError::UnsupportedVersion`] - the version is not [`XFS_AGI_VERSION`].
    pub fn parse(bytes: &[u8]) -> (r: Result<Self, ParseError>)
        ensures
            match r {
                Ok(a) => agi_error(bytes@) is None && agi_decodes_to(bytes@, a),
                Err(e) => agi_error(bytes@) == Some(e),
            },
    {
        if bytes.len() < XFS_AGI_SIZE {
            return Err(ParseError::BufferTooSmall { expected: XFS_AGI_SIZE, actual: bytes.len() });
        }
        let magic = be_u32(bytes, 0);
        if magic != XFS_AGI_MAGIC {
            return Err(ParseError::InvalidMagic { expected: XFS_AGI_MAGIC, actual: magic });
        }
        let version = be_u32(bytes, 4);
        if version != XFS_AGI_VERSION {
            return Err(ParseError::UnsupportedVersion(version));
        }
        let mut unlinked = [0u32; 64];
        let mut off: usize = 40;
        let mut i: usize = 0;
        while i < XFS_AGI_UNLINKED_BUCKETS
            invariant
                bytes@.len() >= XFS_AGI_SIZE,
                i <= 64,
                off == 40 + 4 * i,
                forall|j: int| 0 <= j < i ==> #[trigger] unlinked[j] == be32(bytes@, 40 + 4 * j),
            decreases 64 - i,
        {
            unlinked[i] = be_u32(bytes, off);
            off = off + 4;
            i = i + 1;
        }
        let mut uuid = [0u8; 16];
        copy_out(&mut uuid, bytes, 296);
        Ok(
            Self {
                seqno: be_u32(bytes, 8),
                length: be_u32(bytes, 12),
                count: be_u32(bytes, 16),
                root: be_u32(bytes, 20),
                level: be_u32(bytes, 24),
                freecount: be_u32(bytes, 28),
                newino: be_u32(bytes, 32),
                dirino: be_u32(bytes, 36),
                unlinked,
                uuid,
                crc: be_u32(bytes, 312),
                lsn: be_u64(bytes, 320),
                free_root: be_u32(bytes, 328),
                free_level: be_u32(bytes, 332),
                iblocks: be_u32(bytes, 336),
                fblocks: be_u32(bytes, 340),
            },
        )
    }

    /// Encodes the AGI into the first [`XFS_AGI_SIZE`] bytes of `bytes`. The
    /// checksum field is left for [`crate::crc::write_xfs_crc`].
    ///
    /// # Errors
    ///
    /// * [`ParseError::BufferTooSmall`] - fewer than [`XFS_AGI_SIZE`] bytes;
    ///   `bytes` is then left alone.
    pub fn serialize(&self, bytes: &mut [u8]) -> (r: Result<(), ParseError>)
        ensures
            final(bytes)@.len() == old(bytes)@.len(),
            match r {
                Ok(()) => old(bytes)@.len() >= XFS_AGI_SIZE && final(bytes)@ == agi_image(
                    *self,
                    old(bytes)@,
                ),
                Err(e) => old(bytes)@.len() < XFS_AGI_SIZE && e == ParseError::BufferTooSmall {
                    expected: XFS_AGI_SIZE,
                    actual: old(bytes)@.len() as usize,
                } && final(bytes)@ == old(bytes)@,
            },
    {
        if bytes.len() < XFS_AGI_SIZE {
            return Err(ParseError::BufferTooSmall { expected: XFS_AGI_SIZE, actual: bytes.len() });
        }
        put_be32(bytes, 0, XFS_AGI_MAGIC);
        put_be32(bytes, 4, XFS_AGI_VERSION);
        put_be32(bytes, 8, self.seqno);
        put_be32(bytes, 12, self.length);
        put_be32(bytes, 16, self.count);
        put_be32(bytes, 20, self.root);
        put_be32(bytes, 24, self.level);
        put_be32(bytes, 28, self.freecount);
        put_be32(bytes, 32, self.newino);
        put_be32(bytes, 36, self.dirino);
        proof {
            lemma_to_be32_words(self.unlinked@, 0);
        }
        put_be32_words(bytes, 40, self.unlinked.as_slice());
        put_bytes(bytes, 296, self.uuid.as_slice());
        put_be64(bytes, 320, self.lsn);
        put_be32(bytes, 328, self.free_root);
        put_be32(bytes, 332, self.free_level);
        put_be32(bytes, 336, self.iblocks);
        put_be32(bytes, 340, self.fblocks);
        Ok(())
    }
}

} // verus!
