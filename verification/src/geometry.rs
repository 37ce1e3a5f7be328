//! The geometry of a filesystem and conversions between filesystem blocks and
//! bytes.
use crate::on_disk::superblock::Superblock;
use vstd::prelude::*;

verus! {

#[derive(Debug, Clone, Copy, PartialEq, Eq)]
pub struct Geometry {
    pub block_size: u32,
    pub sector_size: u16,
    pub ag_blocks: u32,
    pub ag_count: u32,
}

/// `fsb * block_size`, saturated at `u64::MAX`.
pub open spec fn fsb_bytes(block_size: u32, fsb: u64) -> int {
    if fsb * block_size > u64::MAX {
        u64::MAX as int
    } else {
        fsb * block_size
    }
}

impl Geometry {
    /// The geometry that the superblock `sb` records.
    pub fn from_superblock(sb: &Superblock) -> (g: Self)
        ensures
            g.block_size == sb.block_size,
            g.sector_size == sb.sector_size,
            g.ag_blocks == sb.ag_blocks,
            g.ag_count == sb.ag_count,
    {
        Self {
            block_size: sb.block_size,
            sector_size: sb.sector_size,
            ag_blocks: sb.ag_blocks,
            ag_count: sb.ag_count,
        }
    }

    /// The byte offset of filesystem block `fsb`, saturated at `u64::MAX`.
    pub fn fsb_to_bytes(self, fsb: u64) -> (r: u64)
        ensures
            r == fsb_bytes(self.block_size, fsb),
    {
        match fsb.checked_mul(self.block_size as u64) {
            Some(b) => b,
            None => u64::MAX,
        }
    }

    /// The filesystem block that holds byte offset `bytes`.
    pub fn bytes_to_fsb(self, bytes: u64) -> (r: u64)
        requires
            self.block_size != 0,
        ensures
            r == bytes / (self.block_size as u64),
    {
        bytes / self.block_size as u64
    }
}

/// A block's byte offset names that block back, as long as the offset does
/// not saturate.
pub proof fn lemma_fsb_bytes_roundtrip(block_size: u32, fsb: u64)
    requires
        block_size != 0,
        fsb * block_size <= u64::MAX,
    ensures
        fsb_bytes(block_size, fsb) / (block_size as int) == fsb,
{
    assert((fsb * block_size) / (block_size as int) == fsb) by (nonlinear_arith)
        requires
            block_size > 0,
    ;
}

/// A byte offset lies in the block that [`Geometry::bytes_to_fsb`] names: at
/// or after its start and before the next block's.
pub proof fn lemma_bytes_in_block(block_size: u32, bytes: u64)
    requires
        block_size != 0,
    ensures
        (bytes as int / (block_size as int)) * block_size <= bytes,
        bytes < (bytes as int / (block_size as int)) * block_size + block_size,
{
    let q = bytes as int / (block_size as int);
    assert(q * block_size <= bytes && bytes < q * block_size + block_size) by (nonlinear_arith)
        requires
            block_size > 0,
            q == bytes as int / (block_size as int),
    ;
}

} // verus!
