//! The allocation group free list header (AGFL).
use crate::endian::{
    be32, be64, be_u32, be_u64, copy_out, group_byte_codec, put_be32, put_be64, put_bytes,
    with_be32, with_be64, with_bytes,
};
use crate::error::ParseError;
use vstd::prelude::*;

verus! {

broadcast use group_byte_codec;

/// The magic number of an AGFL sector ("XAFL").
pub const XFS_AGFL_MAGIC: u32 = 0x5841_464c;

/// The size of the AGFL header that precedes the free list on version 5.
pub const XFS_AGFL_HEADER_SIZE: usize = 36;

/// The offset of the checksum in an AGFL sector.
pub const XFS_AGFL_CRC_OFF: usize = 32;

#[derive(Debug, Clone, Copy, PartialEq, Eq)]
pub struct Agfl {
    pub magicnum: u32,
    pub seqno: u32,
    pub uuid: [u8; 16],
    pub lsn: u64,
    pub crc: u32,
    pub entries_total: u32,
}

/// The number of free-list entries in an AGFL sector of `sector_size` bytes:
/// the whole sector holds 4-byte entries, less the header when checksums are on.
pub open spec fn agfl_entries(sector_size: u16, crc_enabled: bool) -> u32 {
    let entries_bytes: int = if crc_enabled {
        if sector_size >= XFS_AGFL_HEADER_SIZE {
            sector_size - XFS_AGFL_HEADER_SIZE
        } else {
            0
        }
    } else {
        sector_size as int
    };
    (entries_bytes / 4) as u32
}

/// Why `b` does not hold an AGFL sector of `sector_size` bytes, or `None`.
pub open spec fn agfl_error(b: Seq<u8>, sector_size: u16) -> Option<ParseError> {
    if b.len() < sector_size {
        Some(ParseError::BufferTooSmall { expected: sector_size as usize, actual: b.len() as usize })
    } else if b.len() < XFS_AGFL_HEADER_SIZE {
        Some(
            ParseError::BufferTooSmall {
                expected: XFS_AGFL_HEADER_SIZE,
                actual: b.len() as usize,
            },
        )
    } else if be32(b, 0) != XFS_AGFL_MAGIC {
        Some(ParseError::InvalidMagic { expected: XFS_AGFL_MAGIC, actual: be32(b, 0) })
    } else {
        None
    }
}

/// `a` holds the header of the AGFL stored in `b`.
pub open spec fn agfl_decodes_to(b: Seq<u8>, sector_size: u16, crc_enabled: bool, a: Agfl) -> bool {
    &&& a.magicnum == be32(b, 0)
    &&& a.seqno == be32(b, 4)
    &&& a.uuid@ == b.subrange(8, 24)
    &&& a.lsn == be64(b, 24)
    &&& a.crc == be32(b, 32)
    &&& a.entries_total == agfl_entries(sector_size, crc_enabled)
}

/// `b` after the header of `a` has been written over it (the version with
/// checksums; the checksum field is left as it was).
pub open spec fn agfl_image(a: Agfl, b: Seq<u8>) -> Seq<u8> {
    let s = with_be32(b, 0, XFS_AGFL_MAGIC);
    let s = with_be32(s, 4, a.seqno);
    let s = with_bytes(s, 8, a.uuid@);
    with_be64(s, 24, a.lsn)
}

/// What is written is read back: the header image decodes, with the magic
/// number that was written and the checksum that was left.
pub proof fn lemma_agfl_roundtrip(a: Agfl, b: Seq<u8>, sector_size: u16)
    requires
        b.len() >= XFS_AGFL_HEADER_SIZE,
        b.len() >= sector_size,
    ensures
        agfl_image(a, b).len() == b.len(),
        agfl_error(agfl_image(a, b), sector_size) is None,
        agfl_decodes_to(
            agfl_image(a, b),
            sector_size,
            true,
            Agfl {
                magicnum: XFS_AGFL_MAGIC,
                crc: be32(b, 32),
                entries_total: agfl_entries(sector_size, true),
                ..a
            },
        ),
{
}

/// Decoding is deterministic: bytes decode to at most one AGFL header.
pub proof fn lemma_agfl_decode_unique(b: Seq<u8>, sector_size: u16, crc_enabled: bool, x: Agfl, y: Agfl)
    requires
        agfl_decodes_to(b, sector_size, crc_enabled, x),
        agfl_decodes_to(b, sector_size, crc_enabled, y),
    ensures
        x == y,
{
    broadcast use vstd::array::axiom_array_ext_equal, vstd::array::lemma_array_index;

    assert(x.uuid =~= y.uuid);
}

impl Agfl {
    /// Decodes the AGFL header from a sector of `sector_size` bytes.
    ///
    /// # Errors
    ///
    /// * [`ParseError::BufferTooSmall`] - fewer than `sector_size` bytes, or
    ///   fewer than [`XFS_AGFL_HEADER_SIZE`].
    /// * [`ParseError::InvalidMagic`] - the magic number is not [`XFS_AGFL_MAGIC`].
    pub fn parse(bytes: &[u8], sector_size: u16, crc_enabled: bool) -> (r: Result<Self, ParseError>)
        ensures
            match r {
                Ok(a) => agfl_error(bytes@, sector_size) is None && agfl_decodes_to(
                    bytes@,
                    sector_size,
                    crc_enabled,
                    a,
                ),
                Err(e) => agfl_error(bytes@, sector_size) == Some(e),
            },
    {
        let sector_size = sector_size as usize;
        if bytes.len() < sector_size {
            return Err(ParseError::BufferTooSmall { expected: sector_size, actual: bytes.len() });
        }
        if bytes.len() < XFS_AGFL_HEADER_SIZE {
            return Err(
                ParseError::BufferTooSmall { expected: XFS_AGFL_HEADER_SIZE, actual: bytes.len() },
            );
        }
        let magic = be_u32(bytes, 0);
        if magic != XFS_AGFL_MAGIC {
            return Err(ParseError::InvalidMagic { expected: XFS_AGFL_MAGIC, actual: magic });
        }
        let entries_bytes = if crc_enabled {
            if sector_size >= XFS_AGFL_HEADER_SIZE {
                sector_size - XFS_AGFL_HEADER_SIZE
            } else {
                0
            }
        } else {
            sector_size
        };
        // A sector holds at most 65535 bytes, so the entry count fits a u32.
        let entries_total = (entries_bytes / 4) as u32;
        let mut uuid = [0u8; 16];
        copy_out(&mut uuid, bytes, 8);
        Ok(
            Self {
                magicnum: magic,
                seqno: be_u32(bytes, 4),
                uuid,
                lsn: be_u64(bytes, 24),
                crc: be_u32(bytes, 32),
                entries_total,
            },
        )
    }

    /// Encodes the AGFL header. With checksums on, the magic number, sequence
    /// number, UUID and LSN are written and the checksum field is left for
    /// [`crate::crc::write_xfs_crc`]; without, the sector has no header and
    /// nothing is written.
    ///
    /// # Errors
    ///
    /// * [`ParseError::BufferTooSmall`] - checksums on and fewer than
    ///   [`XFS_AGFL_HEADER_SIZE`] bytes; `bytes` is then left alone.
    pub fn serialize(&self, bytes: &mut [u8], crc_enabled: bool) -> (r: Result<(), ParseError>)
        ensures
            final(bytes)@.len() == old(bytes)@.len(),
            match r {
                Ok(()) => if crc_enabled {
                    old(bytes)@.len() >= XFS_AGFL_HEADER_SIZE && final(bytes)@ == agfl_image(
                        *self,
                        old(bytes)@,
                    )
                } else {
                    final(bytes)@ == old(bytes)@
                },
                Err(e) => crc_enabled && old(bytes)@.len() < XFS_AGFL_HEADER_SIZE && e
                    == ParseError::BufferTooSmall {
                    expected: XFS_AGFL_HEADER_SIZE,
                    actual: old(bytes)@.len() as usize,
                } && final(bytes)@ == old(bytes)@,
            },
    {
        if crc_enabled {
            if bytes.len() < XFS_AGFL_HEADER_SIZE {
                return Err(
                    ParseError::BufferTooSmall {
                        expected: XFS_AGFL_HEADER_SIZE,
                        actual: bytes.len(),
                    },
                );
            }
            put_be32(bytes, 0, XFS_AGFL_MAGIC);
            put_be32(bytes, 4, self.seqno);
            put_bytes(bytes, 8, self.uuid.as_slice());
            put_be64(bytes, 24, self.lsn);
        }
        Ok(())
    }
}

} // verus!
