//! Extent records of the block map (the packed 128-bit `bmbt_rec`).
use crate::endian::{be64, be_u64};
use crate::error::ParseError;
use vstd::prelude::*;

verus! {

/// One extent of a file: `blockcount` blocks from file block `startoff` are
/// stored from filesystem block `startblock`.
#[derive(Debug, Clone, Copy, PartialEq, Eq)]
pub struct BmapExtent {
    pub state: u8,
    pub startoff: u64,
    pub startblock: u64,
    pub blockcount: u32,
}

/// The size of a packed extent record.
pub const XFS_BMBT_REC_SIZE: usize = 16;

/// The extent packed in `b[0..16]`.
pub open spec fn bmap_extent_of(b: Seq<u8>) -> BmapExtent {
    let hi = be64(b, 0);
    let lo = be64(b, 8);
    BmapExtent {
        state: (hi / 0x8000_0000_0000_0000) as u8,
        startoff: (hi % 0x8000_0000_0000_0000) / 0x200,
        startblock: ((hi % 0x200) * 0x800_0000_0000 + lo / 0x20_0000) as u64,
        blockcount: (lo % 0x20_0000) as u32,
    }
}

/// `e` is the extent packed in `b[0..16]`. The record is a 128-bit big-endian
/// number made of, from the top: 1 bit of state, 54 bits of file offset, 52
/// bits of start block and 21 bits of block count.
pub open spec fn bmap_decodes_to(b: Seq<u8>, e: BmapExtent) -> bool {
    let hi = be64(b, 0);
    let lo = be64(b, 8);
    &&& e.state == hi / 0x8000_0000_0000_0000
    &&& e.startoff == (hi % 0x8000_0000_0000_0000) / 0x200
    &&& e.startblock == (hi % 0x200) * 0x800_0000_0000 + lo / 0x20_0000
    &&& e.blockcount == lo % 0x20_0000
}

impl BmapExtent {
    pub const SIZE: usize = 16;

    /// Unpacks the extent record at the start of `bytes`.
    ///
    /// # Errors
    ///
    /// * [`ParseError::BufferTooSmall`] - fewer than 16 bytes.
    pub fn parse(bytes: &[u8]) -> (r: Result<Self, ParseError>)
        ensures
            match r {
                Ok(e) => bytes@.len() >= XFS_BMBT_REC_SIZE && bmap_decodes_to(bytes@, e),
                Err(e) => bytes@.len() < XFS_BMBT_REC_SIZE && e == ParseError::BufferTooSmall {
                    expected: XFS_BMBT_REC_SIZE,
                    actual: bytes@.len() as usize,
                },
            },
    {
        if bytes.len() < XFS_BMBT_REC_SIZE {
            return Err(
                ParseError::BufferTooSmall { expected: XFS_BMBT_REC_SIZE, actual: bytes.len() },
            );
        }
        let x0 = be_u64(bytes, 0);
        let x1 = be_u64(bytes, 8);
        let state = (x0 / 0x8000_0000_0000_0000) as u8;
        let startoff = (x0 % 0x8000_0000_0000_0000) / 0x200;
        let startblock = (x0 % 0x200) * 0x800_0000_0000 + x1 / 0x20_0000;
        let blockcount = (x1 % 0x20_0000) as u32;
        Ok(Self { state, startoff, startblock, blockcount })
    }
}

} // verus!
