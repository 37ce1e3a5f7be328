//! The root block of the inode B+tree and of the free inode B+tree (short
//! form B+tree block header, with checksums).
use crate::endian::{
    be16, be32, be64, be_u16, be_u32, be_u64, copy_out, group_byte_codec, le32, le_u32, put_be16,
    put_be32, put_be64, put_bytes, with_be16, with_be32, with_be64, with_bytes,
};
use crate::error::ParseError;
use vstd::prelude::*;

verus! {

broadcast use group_byte_codec;

/// The magic number of an inode B+tree block without checksum ("IABT").
pub const XFS_IBT_MAGIC: u32 = 0x4941_4254;

/// The magic number of a checksummed inode B+tree block ("IAB3").
pub const XFS_IBT_CRC_MAGIC: u32 = 0x4941_4233;

/// The magic number of a free inode B+tree block without checksum ("FIBT").
pub const XFS_FIBT_MAGIC: u32 = 0x4649_4254;

/// The magic number of a checksummed free inode B+tree block ("FIB3").
pub const XFS_FIBT_CRC_MAGIC: u32 = 0x4649_4233;

/// The offset of the checksum in a short-form B+tree block header.
pub const XFS_BTREE_SBLOCK_CRC_OFF: usize = 52;

/// The size of a checksummed short-form B+tree block header.
pub const XFS_BTREE_SBLOCK_CRC_LEN: usize = 56;

/// Which of the two inode B+trees a root belongs to.
#[derive(Debug, Clone, Copy, PartialEq, Eq)]
pub enum InodeBtreeKind {
    Inobt,
    Finobt,
}

#[derive(Debug, Clone, Copy, PartialEq, Eq)]
pub struct InodeBtreeRoot {
    pub kind: InodeBtreeKind,
    pub magic: u32,
    pub level: u16,
    pub numrecs: u16,
    pub leftsib: u32,
    pub rightsib: u32,
    pub blkno: u64,
    pub lsn: u64,
    pub uuid: [u8; 16],
    pub owner: u32,
    pub crc: u32,
}

/// The magic number of a checksummed root block of the tree `kind`.
pub open spec fn inobt_crc_magic(kind: InodeBtreeKind) -> u32 {
    match kind {
        InodeBtreeKind::Inobt => XFS_IBT_CRC_MAGIC,
        InodeBtreeKind::Finobt => XFS_FIBT_CRC_MAGIC,
    }
}

/// Why `b` does not hold a root block of the tree `kind`, or `None`. Only
/// filesystems with checksums are read.
pub open spec fn inobt_error(b: Seq<u8>, kind: InodeBtreeKind, crc_enabled: bool) -> Option<
    ParseError,
> {
    if !crc_enabled {
        Some(ParseError::UnsupportedVersion(4))
    } else if b.len() < XFS_BTREE_SBLOCK_CRC_LEN {
        Some(
            ParseError::BufferTooSmall {
                expected: XFS_BTREE_SBLOCK_CRC_LEN,
                actual: b.len() as usize,
            },
        )
    } else if be32(b, 0) != inobt_crc_magic(kind) {
        Some(ParseError::InvalidMagic { expected: inobt_crc_magic(kind), actual: be32(b, 0) })
    } else {
        None
    }
}

/// `r` holds the header of the root block of the tree `kind` stored in `b`.
pub open spec fn inobt_decodes_to(b: Seq<u8>, kind: InodeBtreeKind, r: InodeBtreeRoot) -> bool {
    &&& r.kind == kind
    &&& r.magic == be32(b, 0)
    &&& r.level == be16(b, 4)
    &&& r.numrecs == be16(b, 6)
    &&& r.leftsib == be32(b, 8)
    &&& r.rightsib == be32(b, 12)
    &&& r.blkno == be64(b, 16)
    &&& r.lsn == be64(b, 24)
    &&& r.uuid@ == b.subrange(32, 48)
    &&& r.owner == be32(b, 48)
    &&& r.crc == le32(b, 52)
}

/// `b` after the header `r` has been written over its first 52 bytes (the
/// checksum field is left as it was).
pub open spec fn inobt_image(r: InodeBtreeRoot, b: Seq<u8>) -> Seq<u8> {
    let s = with_be32(b, 0, r.magic);
    let s = with_be16(s, 4, r.level);
    let s = with_be16(s, 6, r.numrecs);
    let s = with_be32(s, 8, r.leftsib);
    let s = with_be32(s, 12, r.rightsib);
    let s = with_be64(s, 16, r.blkno);
    let s = with_be64(s, 24, r.lsn);
    let s = with_bytes(s, 32, r.uuid@);
    with_be32(s, 48, r.owner)
}

/// What is written is read back: a header whose magic number is that of the
/// tree `kind` decodes as a root of that tree, with the checksum that was left.
pub proof fn lemma_inobt_roundtrip(r: InodeBtreeRoot, b: Seq<u8>, kind: InodeBtreeKind)
    requires
        b.len() >= XFS_BTREE_SBLOCK_CRC_LEN,
        r.magic == inobt_crc_magic(kind),
    ensures
        inobt_image(r, b).len() == b.len(),
        inobt_error(inobt_image(r, b), kind, true) is None,
        inobt_decodes_to(inobt_image(r, b), kind, InodeBtreeRoot { kind, crc: le32(b, 52), ..r }),
{
}

/// Decoding is deterministic: bytes decode to at most one root of a tree.
pub proof fn lemma_inobt_decode_unique(b: Seq<u8>, kind: InodeBtreeKind, x: InodeBtreeRoot, y: InodeBtreeRoot)
    requires
        inobt_decodes_to(b, kind, x),
        inobt_decodes_to(b, kind, y),
    ensures
        x == y,
{
    broadcast use vstd::array::axiom_array_ext_equal, vstd::array::lemma_array_index;

    assert(x.uuid =~= y.uuid);
}

impl InodeBtreeRoot {
    /// Decodes the root block of the tree `kind` (inobt or finobt).
    ///
    /// # Errors
    ///
    /// * [`ParseError::UnsupportedVersion`] - the filesystem has no checksums
    ///   (version 4), which this reader does not support.
    /// * [`ParseError::BufferTooSmall`] - fewer than [`XFS_BTREE_SBLOCK_CRC_LEN`] bytes.
    /// * [`ParseError::InvalidMagic`] - the magic number is not that of `kind`.
    pub fn parse(bytes: &[u8], kind: InodeBtreeKind, crc_enabled: bool) -> (r: Result<
        Self,
        ParseError,
    >)
        ensures
            match r {
                Ok(root) => inobt_error(bytes@, kind, crc_enabled) is None && inobt_decodes_to(
                    bytes@,
                    kind,
                    root,
                ),
                Err(e) => inobt_error(bytes@, kind, crc_enabled) == Some(e),
            },
    {
        if !crc_enabled {
            return Err(ParseError::UnsupportedVersion(4));
        }
        if bytes.len() < XFS_BTREE_SBLOCK_CRC_LEN {
            return Err(
                ParseError::BufferTooSmall {
                    expected: XFS_BTREE_SBLOCK_CRC_LEN,
                    actual: bytes.len(),
                },
            );
        }
        let magic = be_u32(bytes, 0);
        let expected = match kind {
            InodeBtreeKind::Inobt => XFS_IBT_CRC_MAGIC,
            InodeBtreeKind::Finobt => XFS_FIBT_CRC_MAGIC,
        };
        if magic != expected {
            return Err(ParseError::InvalidMagic { expected, actual: magic });
        }
        let mut uuid = [0u8; 16];
        copy_out(&mut uuid, bytes, 32);
        Ok(
            Self {
                kind,
                magic,
                level: be_u16(bytes, 4),
                numrecs: be_u16(bytes, 6),
                leftsib: be_u32(bytes, 8),
                rightsib: be_u32(bytes, 12),
                blkno: be_u64(bytes, 16),
                lsn: be_u64(bytes, 24),
                uuid,
                owner: be_u32(bytes, 48),
                crc: le_u32(bytes, 52),
            },
        )
    }

    /// Encodes the block header (the magic number is `self.magic`, whatever the
    /// kind). The checksum field is left for [`crate::crc::write_xfs_crc`].
    ///
    /// # Errors
    ///
    /// * [`ParseError::BufferTooSmall`] - fewer than [`XFS_BTREE_SBLOCK_CRC_LEN`]
    ///   bytes; `bytes` is then left alone.
    pub fn serialize(&self, bytes: &mut [u8]) -> (r: Result<(), ParseError>)
        ensures
            final(bytes)@.len() == old(bytes)@.len(),
            match r {
                Ok(()) => old(bytes)@.len() >= XFS_BTREE_SBLOCK_CRC_LEN && final(bytes)@
                    == inobt_image(*self, old(bytes)@),
                Err(e) => old(bytes)@.len() < XFS_BTREE_SBLOCK_CRC_LEN && e
                    == ParseError::BufferTooSmall {
                    expected: XFS_BTREE_SBLOCK_CRC_LEN,
                    actual: old(bytes)@.len() as usize,
                } && final(bytes)@ == old(bytes)@,
            },
    {
        if bytes.len() < XFS_BTREE_SBLOCK_CRC_LEN {
            return Err(
                ParseError::BufferTooSmall {
                    expected: XFS_BTREE_SBLOCK_CRC_LEN,
                    actual: bytes.len(),
                },
            );
        }
        put_be32(bytes, 0, self.magic);
        put_be16(bytes, 4, self.level);
        put_be16(bytes, 6, self.numrecs);
        put_be32(bytes, 8, self.leftsib);
        put_be32(bytes, 12, self.rightsib);
        put_be64(bytes, 16, self.blkno);
        put_be64(bytes, 24, self.lsn);
        put_bytes(bytes, 32, self.uuid.as_slice());
        put_be32(bytes, 48, self.owner);
        Ok(())
    }
}

} // verus!
