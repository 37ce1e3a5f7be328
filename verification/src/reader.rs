//! Reading filesystem structures from a block device: where each structure
//! lies, and what is accepted of the bytes the device gives back.
//!
//! Each reader states, over the device's record of requests
//! ([`BlockDevice::requests`]), which reads it makes (offset and length, in
//! order) and what it returns for each answer the device may give.
use crate::crc::{verify_xfs_crc, xfs_crc_ok};
use crate::endian::{lemma_with_bytes_len, lemma_with_bytes_same, put_bytes};
use crate::device::{
    followed_by_reads, lemma_no_reads, lemma_one_more_read, lemma_prefix_answers, lemma_single_read, read_answer, BlockDevice, DeviceRequest,
};
use crate::error::{DeviceError, ParseError, ReadError};
use crate::on_disk::agf::{agf_decodes_to, agf_error, lemma_agf_decode_unique, Agf, XFS_AGF_CRC_OFF, XFS_AGF_SIZE};
use crate::on_disk::agfl::{agfl_decodes_to, agfl_error, lemma_agfl_decode_unique, Agfl, XFS_AGFL_CRC_OFF};
use crate::on_disk::agi::{agi_decodes_to, agi_error, Agi, XFS_AGI_CRC_OFF, XFS_AGI_SIZE};
use crate::on_disk::inobt::{
    inobt_decodes_to, inobt_error, InodeBtreeKind, InodeBtreeRoot, XFS_BTREE_SBLOCK_CRC_OFF,
};
use crate::on_disk::bmap::{bmap_decodes_to, bmap_extent_of, BmapExtent, XFS_BMBT_REC_SIZE};
use crate::on_disk::dir::{
    dir_entry_error, dir_entry_ftype, dir_entry_inumber, dir_entry_len, dir_entry_name,
    dir_entry_ino_off, dir_header_error, dir_header_len, dir_header_parent, utf8_lossy, DirSfEntry,
    DirSfHeader,
};
use crate::endian::{be32, be64};
use crate::on_disk::inode::{
    inode_decodes_to, inode_error, Inode, InodeFormat, XFS_DINODE_CRC_OFF, XFS_DINODE_SIZE_V3,
};
use crate::on_disk::superblock::{
    lemma_superblock_decode_unique, sb_has_incompat, superblock_decodes_to, superblock_error, Superblock, XFS_DSB_SIZE,
    XFS_SB_CRC_OFF, XFS_SB_FEAT_INCOMPAT_FTYPE, XFS_SB_VERSION_5,
};
use vstd::arithmetic::div_mod::{lemma_fundamental_div_mod_converse_div, lemma_fundamental_div_mod_converse_mod};
use vstd::arithmetic::power2::{lemma_pow2_adds, lemma_pow2_pos, pow2};
use vstd::bits::{lemma_u64_pow2_no_overflow, lemma_u64_shl_is_mul, lemma_u64_shr_is_div};
use vstd::prelude::*;
use vstd::slice::slice_to_vec;

verus! {

/// The largest sector size the reader accepts.
pub const XFS_MAX_SECTOR_SIZE: usize = 4096;

// ---------------------------------------------------------------- arithmetic

/// `a * b`, or `u64::MAX` when the product does not fit.
pub open spec fn sat_mul(a: int, b: int) -> int {
    if a * b > u64::MAX {
        u64::MAX as int
    } else {
        a * b
    }
}

fn saturating_mul(a: u64, b: u64) -> (r: u64)
    ensures
        r == sat_mul(a as int, b as int),
{
    match a.checked_mul(b) {
        Some(p) => p,
        None => u64::MAX,
    }
}

// ---------------------------------------------------------------- locations

/// The byte offset of allocation group `agno`: the product of its number,
/// the blocks per group and the block size, saturated at `u64::MAX`.
pub open spec fn ag_start_of(sb: Superblock, agno: int) -> int {
    sat_mul(sat_mul(agno, sb.ag_blocks as int), sb.block_size as int)
}

/// The byte offset of allocation group `agno`.
///
/// # Errors
///
/// * `Device(OutOfRange)` - the filesystem has no group `agno`.
pub fn ag_start(sb: &Superblock, agno: u32) -> (r: Result<u64, ReadError>)
    ensures
        agno < sb.ag_count ==> r == Ok::<u64, ReadError>(ag_start_of(*sb, agno as int) as u64),
        agno >= sb.ag_count ==> r == Err::<u64, ReadError>(ReadError::Device(DeviceError::OutOfRange)),
{
    if agno >= sb.ag_count {
        return Err(ReadError::Device(DeviceError::OutOfRange));
    }
    Ok(saturating_mul(saturating_mul(agno as u64, sb.ag_blocks as u64), sb.block_size as u64))
}

/// Checks that a sector fits the reader's sector buffer.
///
/// # Errors
///
/// * `Parse(InvalidField)` - the sector is larger than [`XFS_MAX_SECTOR_SIZE`].
pub fn ensure_sector_size(sector_size: u16) -> (r: Result<usize, ReadError>)
    ensures
        sector_size <= XFS_MAX_SECTOR_SIZE ==> r == Ok::<usize, ReadError>(sector_size as usize),
        sector_size > XFS_MAX_SECTOR_SIZE ==> r == Err::<usize, ReadError>(
            ReadError::Parse(ParseError::InvalidField { field: "sector_size", value: sector_size as u64 }),
        ),
{
    let size = sector_size as usize;
    if size > XFS_MAX_SECTOR_SIZE {
        return Err(
            ReadError::Parse(ParseError::InvalidField { field: "sector_size", value: size as u64 }),
        );
    }
    Ok(size)
}

/// Where inode `ino` lies, or `None` when the inode number does not name a
/// place on the device. The number is made, from the top, of the allocation
/// group, the block in the group (`agblklog` bits) and the inode in the block
/// (`inopblog` bits); the group number is taken modulo 2^32.
pub open spec fn inode_location(sb: Superblock, ino: u64) -> Option<int> {
    let a = sb.agblklog as nat;
    let p = sb.inopblog as nat;
    if a + p >= 64 {
        None
    } else {
        let ino = ino as int;
        let agno = (ino / pow2(a + p) as int) % 0x1_0000_0000;
        if agno >= sb.ag_count {
            None
        } else {
            let agbno = (ino / pow2(p) as int) % pow2(a) as int;
            let idx = ino % pow2(p) as int;
            let off = ag_start_of(sb, agno) + agbno * sb.block_size + idx * sb.inode_size;
            if off > u64::MAX {
                None
            } else {
                Some(off)
            }
        }
    }
}

/// The byte offset of inode `ino`.
///
/// # Errors
///
/// * `Device(OutOfRange)` - the number does not name a place on the device:
///   its fields do not fit 64 bits, its group does not exist, or the offset
///   does not fit 64 bits.
pub fn inode_offset(sb: &Superblock, ino: u64) -> (r: Result<u64, ReadError>)
    ensures
        match inode_location(*sb, ino) {
            Some(off) => r == Ok::<u64, ReadError>(off as u64),
            None => r == Err::<u64, ReadError>(ReadError::Device(DeviceError::OutOfRange)),
        },
{
    let a = sb.agblklog as u64;
    let p = sb.inopblog as u64;
    if a + p >= 64 {
        return Err(ReadError::Device(DeviceError::OutOfRange));
    }
    proof {
        lemma_u64_shr_is_div(ino, (a + p) as u64);
        lemma_u64_shr_is_div(ino, p);
        lemma_u64_pow2_no_overflow(a as nat);
        lemma_u64_pow2_no_overflow(p as nat);
        lemma_u64_shl_is_mul(1, a);
        lemma_u64_shl_is_mul(1, p);
    }
    let agno = ((ino >> (a + p)) % 0x1_0000_0000) as u32;
    let start = ag_start(sb, agno)?;
    let agbno = (ino >> p) % (1u64 << a);
    let idx = ino % (1u64 << p);
    let in_ag = match agbno.checked_mul(sb.block_size as u64) {
        Some(v) => v,
        None => return Err(ReadError::Device(DeviceError::OutOfRange)),
    };
    let in_block = match idx.checked_mul(sb.inode_size as u64) {
        Some(v) => v,
        None => return Err(ReadError::Device(DeviceError::OutOfRange)),
    };
    let sum = match start.checked_add(in_ag) {
        Some(v) => v,
        None => return Err(ReadError::Device(DeviceError::OutOfRange)),
    };
    match sum.checked_add(in_block) {
        Some(v) => Ok(v),
        None => Err(ReadError::Device(DeviceError::OutOfRange)),
    }
}

// ---------------------------------------------------------------- reading

/// The answer of a read that returned `r` and left `b` in its buffer.
spec fn read_outcome(r: Result<(), DeviceError>, b: Seq<u8>) -> Result<Seq<u8>, DeviceError> {
    match r {
        Ok(()) => Ok(b),
        Err(e) => Err(e),
    }
}

/// Reads `len` bytes at `offset` into a fresh buffer.
fn read_exact<D: BlockDevice>(dev: &mut D, offset: u64, len: usize) -> (r: Result<Vec<u8>, ReadError>)
    ensures
        followed_by_reads(old(dev).requests(), final(dev).requests(), seq![(offset, len as nat)]),
        match read_answer(final(dev).requests(), old(dev).requests().len() as int) {
            Ok(b) => b.len() == len && (r matches Ok(v) && v@ == b),
            Err(e) => r == Err::<Vec<u8>, ReadError>(ReadError::Device(e)),
        },
{
    let mut buf = vec![0u8; len];
    let ghost o = old(dev).requests();
    let r = dev.read_at(offset, buf.as_mut_slice());
    proof {
        lemma_no_reads(o);
        let answer = read_outcome(r, buf@);
        lemma_one_more_read(o, o, Seq::empty(), offset, len as nat, answer);
        assert(Seq::<(u64, nat)>::empty().push((offset, len as nat)) =~= seq![(offset, len as nat)]);
    }
    match r {
        Ok(()) => Ok(buf),
        Err(e) => Err(ReadError::Device(e)),
    }
}

/// Checks the XFS checksum of the block `bytes`, whose checksum field is at
/// `cksum_offset`; a mismatch is reported as a checksum error on `what`.
pub fn check_xfs_crc(bytes: &[u8], cksum_offset: usize, what: &'static str) -> (r: Result<
    (),
    ReadError,
>)
    ensures
        r is Ok <==> xfs_crc_ok(bytes@, cksum_offset as int),
        r is Err ==> r == Err::<(), ReadError>(ReadError::Parse(ParseError::CrcMismatch { what })),
{
    if !verify_xfs_crc(bytes, cksum_offset) {
        return Err(ReadError::Parse(ParseError::CrcMismatch { what }));
    }
    Ok(())
}

/// The request `f[i]` is a read of `len` bytes at `offset`.
pub open spec fn read_at_place(f: Seq<DeviceRequest>, i: int, offset: u64, len: nat) -> bool {
    0 <= i < f.len() && (f[i] matches DeviceRequest::Read { offset: o, len: l, .. } && o == offset
        && l == len)
}

/// What reading the superblock gives, the requests from `f[b]` on being
/// those it made: a read of [`XFS_DSB_SIZE`] bytes at offset 0, answered
/// with an error, with bytes that do not decode, or with bytes that decode to
/// a superblock; for version 5, a sector-size error, or a read of the whole
/// first sector whose checksum decides.
#[verifier::opaque]
pub open spec fn superblock_read_outcome(f: Seq<DeviceRequest>, b: int, r: Result<Superblock, ReadError>) -> bool {
    &&& read_at_place(f, b, 0, XFS_DSB_SIZE as nat)
    &&& match read_answer(f, b) {
        Err(e) => f.len() == b + 1 && r == Err::<Superblock, ReadError>(ReadError::Device(e)),
        Ok(raw) => {
            &&& raw.len() == XFS_DSB_SIZE
            &&& match superblock_error(raw) {
                Some(e) => f.len() == b + 1 && r == Err::<Superblock, ReadError>(ReadError::Parse(e)),
                None => exists|sb: Superblock|
                    #[trigger] superblock_decodes_to(raw, sb) && if sb.version != XFS_SB_VERSION_5 {
                        f.len() == b + 1 && r == Ok::<Superblock, ReadError>(sb)
                    } else if sb.sector_size > XFS_MAX_SECTOR_SIZE {
                        f.len() == b + 1 && r == Err::<Superblock, ReadError>(
                            ReadError::Parse(
                                ParseError::InvalidField {
                                    field: "sector_size",
                                    value: sb.sector_size as u64,
                                },
                            ),
                        )
                    } else {
                        &&& f.len() == b + 2
                        &&& read_at_place(f, b + 1, 0, sb.sector_size as nat)
                        &&& match read_answer(f, b + 1) {
                            Err(e) => r == Err::<Superblock, ReadError>(ReadError::Device(e)),
                            Ok(sec) => if xfs_crc_ok(sec, XFS_SB_CRC_OFF as int) {
                                r == Ok::<Superblock, ReadError>(sb)
                            } else {
                                r == Err::<Superblock, ReadError>(
                                    ReadError::Parse(ParseError::CrcMismatch { what: "superblock" }),
                                )
                            },
                        }
                    },
            }
        },
    }
}

/// Some sector of `sector_size` bytes, no larger than the reader accepts, was
/// read and carried a valid checksum at `cksum_offset`.
#[verifier::opaque]
pub open spec fn sector_crc_checked(sector_size: u16, cksum_offset: int) -> bool {
    &&& sector_size <= XFS_MAX_SECTOR_SIZE
    &&& exists|sec: Seq<u8>| sec.len() == sector_size && #[trigger] xfs_crc_ok(sec, cksum_offset)
}

/// `sb` decodes from some [`XFS_DSB_SIZE`] bytes.
#[verifier::opaque]
pub open spec fn is_decoded_superblock(sb: Superblock) -> bool {
    exists|raw: Seq<u8>|
        raw.len() == XFS_DSB_SIZE && superblock_error(raw) is None
            && #[trigger] superblock_decodes_to(raw, sb)
}

/// `agf` decodes from some [`XFS_AGF_SIZE`] bytes.
#[verifier::opaque]
pub open spec fn is_decoded_agf(agf: Agf) -> bool {
    exists|raw: Seq<u8>|
        raw.len() == XFS_AGF_SIZE && agf_error(raw) is None && #[trigger] agf_decodes_to(raw, agf)
}

/// `agi` decodes from some [`XFS_AGI_SIZE`] bytes.
#[verifier::opaque]
pub open spec fn is_decoded_agi(agi: Agi) -> bool {
    exists|raw: Seq<u8>|
        raw.len() == XFS_AGI_SIZE && agi_error(raw) is None && #[trigger] agi_decodes_to(raw, agi)
}

/// `agfl` decodes from some sector of `sector_size` bytes that, when
/// `crc_enabled`, carries a valid checksum.
#[verifier::opaque]
pub open spec fn is_decoded_agfl(agfl: Agfl, sector_size: u16, crc_enabled: bool) -> bool {
    exists|sec: Seq<u8>|
        {
            &&& sec.len() == sector_size
            &&& crc_enabled ==> xfs_crc_ok(sec, XFS_AGFL_CRC_OFF as int)
            &&& #[trigger] agfl_error(sec, sector_size) is None
            &&& agfl_decodes_to(sec, sector_size, crc_enabled, agfl)
        }
}

/// Reads the primary superblock at the start of the device. On a version 5
/// filesystem, the checksum of the whole superblock sector is checked too.
///
/// The reads it makes and the result for each answer are stated by
/// [`superblock_read_outcome`]. Whatever the device gives, a superblock is returned only
/// when some [`XFS_DSB_SIZE`] bytes decoded to it and, on
/// version 5, a sector with a valid checksum was read.
///
/// # Errors
///
/// * [`ReadError`]
pub fn read_superblock<D: BlockDevice>(dev: &mut D) -> (r: Result<Superblock, ReadError>)
    ensures
        final(dev).requests().len() > old(dev).requests().len(),
        final(dev).requests().subrange(0, old(dev).requests().len() as int) == old(dev).requests(),
        superblock_read_outcome(final(dev).requests(), old(dev).requests().len() as int, r),
        r matches Ok(sb) ==> {
            &&& is_decoded_superblock(sb)
            &&& sb.version == XFS_SB_VERSION_5 ==> sector_crc_checked(
                sb.sector_size,
                XFS_SB_CRC_OFF as int,
            )
        },
{
    let ghost o = old(dev).requests();
    let ghost b = o.len() as int;
    let raw = match read_exact(dev, 0, XFS_DSB_SIZE) {
        Ok(v) => v,
        Err(e) => {
            proof {
                lemma_single_read(o, dev.requests(), 0, XFS_DSB_SIZE as nat);
                assert(dev.requests().subrange(0, b) =~= o);
                assert(superblock_read_outcome(dev.requests(), b, Err(e))) by {
                    reveal(superblock_read_outcome);
                }
            }
            return Err(e);
        },
    };
    let ghost f1 = dev.requests();
    proof {
        lemma_single_read(o, f1, 0, XFS_DSB_SIZE as nat);
        assert(f1.subrange(0, b) =~= o);
    }
    let sb = match Superblock::parse(raw.as_slice()) {
        Ok(sb) => sb,
        Err(e) => {
            proof {
                assert(superblock_read_outcome(f1, b, Err(ReadError::Parse(e)))) by {
                    reveal(superblock_read_outcome);
                }
            }
            return Err(ReadError::Parse(e));
        },
    };
    assert(is_decoded_superblock(sb)) by {
        reveal(is_decoded_superblock);
        assert(superblock_decodes_to(raw@, sb));
    }
    if sb.is_v5() {
        let sector_size = match ensure_sector_size(sb.sector_size) {
            Ok(n) => n,
            Err(e) => {
                proof {
                    assert(superblock_read_outcome(f1, b, Err(e))) by {
                        reveal(superblock_read_outcome);
                        assert(superblock_decodes_to(raw@, sb));
                    }
                }
                return Err(e);
            },
        };
        let sector_r = read_exact(dev, 0, sector_size);
        let ghost f2 = dev.requests();
        proof {
            lemma_single_read(f1, f2, 0, sector_size as nat);
            lemma_one_more_read(o, f1, seq![(0u64, XFS_DSB_SIZE as nat)], 0, sector_size as nat, read_answer(f2, f1.len() as int));
            assert(f2.subrange(0, b) =~= o);
        }
        let sector = match sector_r {
            Ok(v) => v,
            Err(e) => {
                proof {
                    assert(superblock_read_outcome(f2, b, Err(e))) by {
                        reveal(superblock_read_outcome);
                        assert(superblock_decodes_to(raw@, sb));
                    }
                }
                return Err(e);
            },
        };
        match check_xfs_crc(sector.as_slice(), XFS_SB_CRC_OFF, "superblock") {
            Ok(()) => {},
            Err(e) => {
                proof {
                    assert(superblock_read_outcome(f2, b, Err(e))) by {
                        reveal(superblock_read_outcome);
                        assert(superblock_decodes_to(raw@, sb));
                    }
                }
                return Err(e);
            },
        }
        assert(sector_crc_checked(sb.sector_size, XFS_SB_CRC_OFF as int)) by {
            reveal(sector_crc_checked);
            assert(xfs_crc_ok(sector@, XFS_SB_CRC_OFF as int));
        }
        proof {
            assert(superblock_read_outcome(f2, b, Ok(sb))) by {
                reveal(superblock_read_outcome);
                assert(superblock_decodes_to(raw@, sb));
            }
        }
    } else {
        proof {
            assert(superblock_read_outcome(f1, b, Ok(sb))) by {
                reveal(superblock_read_outcome);
                assert(superblock_decodes_to(raw@, sb));
            }
        }
    }
    Ok(sb)
}

/// The byte offset of the sector `n` sectors into allocation group `agno`,
/// or `None` when the group does not exist or the offset does not fit 64
/// bits.
pub open spec fn ag_sector_place(sb: Superblock, agno: u32, n: int) -> Option<u64> {
    if agno >= sb.ag_count || ag_start_of(sb, agno as int) + n * sb.sector_size > u64::MAX {
        None
    } else {
        Some((ag_start_of(sb, agno as int) + n * sb.sector_size) as u64)
    }
}

/// The byte offset of the sector `n` sectors into allocation group `agno`.
fn ag_sector_offset(sb: &Superblock, agno: u32, n: u64) -> (r: Result<u64, ReadError>)
    requires
        n <= 3,
    ensures
        agno >= sb.ag_count ==> r == Err::<u64, ReadError>(ReadError::Device(DeviceError::OutOfRange)),
        agno < sb.ag_count ==> r == if ag_start_of(*sb, agno as int) + n * sb.sector_size
            <= u64::MAX {
            Ok::<u64, ReadError>((ag_start_of(*sb, agno as int) + n * sb.sector_size) as u64)
        } else {
            Err::<u64, ReadError>(ReadError::Device(DeviceError::OutOfRange))
        },
{
    let start = ag_start(sb, agno)?;
    let ss = sb.sector_size as u64;
    assert(n * ss <= 3 * 0xffff) by (nonlinear_arith)
        requires
            n <= 3,
            ss <= 0xffff,
    ;
    match start.checked_add(n * ss) {
        Some(off) => Ok(off),
        None => Err(ReadError::Device(DeviceError::OutOfRange)),
    }
}

/// Reads the AGF of allocation group `agno`, in the sector after the group's
/// superblock. On a version 5 filesystem the sector's checksum is checked.
///
/// The reads it makes and the result for each answer are stated by
/// [`agf_read_outcome`]. Whatever the device gives, an AGF is returned only
/// when some [`XFS_AGF_SIZE`] bytes decoded to it and, on version 5, a
/// sector with a valid checksum was read.
///
/// # Errors
///
/// * `Device(OutOfRange)` - the filesystem has no group `agno`, or the group
///   lies beyond 64-bit offsets.
/// * [`ReadError`] - what the device or the decoding reports.
/// What reading the AGF of a group gives, the requests from `f[b]` on
/// being those it made: a read of [`XFS_AGF_SIZE`] bytes at `off`, answered with
/// an error, with bytes that do not decode, or with bytes that decode; on
/// version 5, a sector-size error, or a read of the whole sector at `off`
/// whose checksum decides.
#[verifier::opaque]
pub open spec fn agf_read_outcome(sb: Superblock, off: u64, f: Seq<DeviceRequest>, b: int, r: Result<Agf, ReadError>) -> bool {
    &&& read_at_place(f, b, off, XFS_AGF_SIZE as nat)
    &&& match read_answer(f, b) {
        Err(e) => f.len() == b + 1 && r == Err::<Agf, ReadError>(ReadError::Device(e)),
        Ok(raw) => {
            &&& raw.len() == XFS_AGF_SIZE
            &&& match agf_error(raw) {
                Some(e) => f.len() == b + 1 && r == Err::<Agf, ReadError>(ReadError::Parse(e)),
                None => if sb.version != XFS_SB_VERSION_5 {
                    f.len() == b + 1 && (r matches Ok(a) && agf_decodes_to(raw, a))
                } else if sb.sector_size > XFS_MAX_SECTOR_SIZE {
                    f.len() == b + 1 && r == Err::<Agf, ReadError>(
                        ReadError::Parse(
                            ParseError::InvalidField { field: "sector_size", value: sb.sector_size as u64 },
                        ),
                    )
                } else {
                    &&& f.len() == b + 2
                    &&& read_at_place(f, b + 1, off, sb.sector_size as nat)
                    &&& match read_answer(f, b + 1) {
                        Err(e) => r == Err::<Agf, ReadError>(ReadError::Device(e)),
                        Ok(sec) => if xfs_crc_ok(sec, XFS_AGF_CRC_OFF as int) {
                            r matches Ok(a) && agf_decodes_to(raw, a)
                        } else {
                            r == Err::<Agf, ReadError>(
                                ReadError::Parse(ParseError::CrcMismatch { what: "agf" }),
                            )
                        },
                    }
                },
            }
        },
    }
}

pub fn read_agf<D: BlockDevice>(dev: &mut D, sb: &Superblock, agno: u32) -> (r: Result<
    Agf,
    ReadError,
>)
    ensures
        match ag_sector_place(*sb, agno, 1) {
            None => r == Err::<Agf, ReadError>(ReadError::Device(DeviceError::OutOfRange)) && *final(dev)
                == *old(dev),
            Some(off) => {
                &&& final(dev).requests().len() > old(dev).requests().len()
                &&& final(dev).requests().subrange(0, old(dev).requests().len() as int) == old(dev).requests()
                &&& agf_read_outcome(*sb, off, final(dev).requests(), old(dev).requests().len() as int, r)
            },
        },
        agno >= sb.ag_count ==> r == Err::<Agf, ReadError>(ReadError::Device(DeviceError::OutOfRange)),
        r matches Ok(agf) ==> {
            &&& agno < sb.ag_count
            &&& is_decoded_agf(agf)
            &&& sb.version == XFS_SB_VERSION_5 ==> sector_crc_checked(
                sb.sector_size,
                XFS_AGF_CRC_OFF as int,
            )
        },
{
    let ghost o = old(dev).requests();
    let ghost b = o.len() as int;
    let offset = ag_sector_offset(sb, agno, 1)?;
    let raw = match read_exact(dev, offset, XFS_AGF_SIZE) {
        Ok(v) => v,
        Err(e) => {
            proof {
                lemma_single_read(o, dev.requests(), offset, XFS_AGF_SIZE as nat);
                assert(dev.requests().subrange(0, b) =~= o);
                assert(agf_read_outcome(*sb, offset, dev.requests(), b, Err(e))) by {
                    reveal(agf_read_outcome);
                }
            }
            return Err(e);
        },
    };
    let ghost f1 = dev.requests();
    proof {
        lemma_single_read(o, f1, offset, XFS_AGF_SIZE as nat);
        assert(f1.subrange(0, b) =~= o);
    }
    let a = match Agf::parse(raw.as_slice()) {
        Ok(a) => a,
        Err(e) => {
            proof {
                assert(agf_read_outcome(*sb, offset, f1, b, Err(ReadError::Parse(e)))) by {
                    reveal(agf_read_outcome);
                }
            }
            return Err(ReadError::Parse(e));
        },
    };
    assert(is_decoded_agf(a)) by {
        reveal(is_decoded_agf);
        assert(agf_decodes_to(raw@, a));
    }
    if sb.is_v5() {
        let sector_size = match ensure_sector_size(sb.sector_size) {
            Ok(n) => n,
            Err(e) => {
                proof {
                    assert(agf_read_outcome(*sb, offset, f1, b, Err(e))) by {
                        reveal(agf_read_outcome);
                    }
                }
                return Err(e);
            },
        };
        let sector_r = read_exact(dev, offset, sector_size);
        let ghost f2 = dev.requests();
        proof {
            lemma_single_read(f1, f2, offset, sector_size as nat);
            lemma_one_more_read(o, f1, seq![(offset, XFS_AGF_SIZE as nat)], offset, sector_size as nat, read_answer(f2, f1.len() as int));
            assert(f2.subrange(0, b) =~= o);
        }
        let sector = match sector_r {
            Ok(v) => v,
            Err(e) => {
                proof {
                    assert(agf_read_outcome(*sb, offset, f2, b, Err(e))) by {
                        reveal(agf_read_outcome);
                    }
                }
                return Err(e);
            },
        };
        match check_xfs_crc(sector.as_slice(), XFS_AGF_CRC_OFF, "agf") {
            Ok(()) => {},
            Err(e) => {
                proof {
                    assert(agf_read_outcome(*sb, offset, f2, b, Err(e))) by {
                        reveal(agf_read_outcome);
                    }
                }
                return Err(e);
            },
        }
        assert(sector_crc_checked(sb.sector_size, XFS_AGF_CRC_OFF as int)) by {
            reveal(sector_crc_checked);
            assert(xfs_crc_ok(sector@, XFS_AGF_CRC_OFF as int));
        }
        proof {
            assert(agf_read_outcome(*sb, offset, f2, b, Ok(a))) by {
                reveal(agf_read_outcome);
            }
        }
    } else {
        proof {
            assert(agf_read_outcome(*sb, offset, f1, b, Ok(a))) by {
                reveal(agf_read_outcome);
            }
        }
    }
    Ok(a)
}

/// Reads the AGI of allocation group `agno`, two sectors after the group's
/// superblock. On a version 5 filesystem the sector's checksum is checked.
///
/// The reads it makes and the result for each answer are stated by
/// [`agi_read_outcome`]. Whatever the device gives, an AGI is returned only
/// when some [`XFS_AGI_SIZE`] bytes decoded to it and, on version 5, a
/// sector with a valid checksum was read.
///
/// # Errors
///
/// * `Device(OutOfRange)` - the filesystem has no group `agno`, or the group
///   lies beyond 64-bit offsets.
/// * [`ReadError`] - what the device or the decoding reports.
/// What reading the AGI of a group gives, the requests from `f[b]` on
/// being those it made: a read of [`XFS_AGI_SIZE`] bytes at `off`, answered with
/// an error, with bytes that do not decode, or with bytes that decode; on
/// version 5, a sector-size error, or a read of the whole sector at `off`
/// whose checksum decides.
#[verifier::opaque]
pub open spec fn agi_read_outcome(sb: Superblock, off: u64, f: Seq<DeviceRequest>, b: int, r: Result<Agi, ReadError>) -> bool {
    &&& read_at_place(f, b, off, XFS_AGI_SIZE as nat)
    &&& match read_answer(f, b) {
        Err(e) => f.len() == b + 1 && r == Err::<Agi, ReadError>(ReadError::Device(e)),
        Ok(raw) => {
            &&& raw.len() == XFS_AGI_SIZE
            &&& match agi_error(raw) {
                Some(e) => f.len() == b + 1 && r == Err::<Agi, ReadError>(ReadError::Parse(e)),
                None => if sb.version != XFS_SB_VERSION_5 {
                    f.len() == b + 1 && (r matches Ok(a) && agi_decodes_to(raw, a))
                } else if sb.sector_size > XFS_MAX_SECTOR_SIZE {
                    f.len() == b + 1 && r == Err::<Agi, ReadError>(
                        ReadError::Parse(
                            ParseError::InvalidField { field: "sector_size", value: sb.sector_size as u64 },
                        ),
                    )
                } else {
                    &&& f.len() == b + 2
                    &&& read_at_place(f, b + 1, off, sb.sector_size as nat)
                    &&& match read_answer(f, b + 1) {
                        Err(e) => r == Err::<Agi, ReadError>(ReadError::Device(e)),
                        Ok(sec) => if xfs_crc_ok(sec, XFS_AGI_CRC_OFF as int) {
                            r matches Ok(a) && agi_decodes_to(raw, a)
                        } else {
                            r == Err::<Agi, ReadError>(
                                ReadError::Parse(ParseError::CrcMismatch { what: "agi" }),
                            )
                        },
                    }
                },
            }
        },
    }
}

pub fn read_agi<D: BlockDevice>(dev: &mut D, sb: &Superblock, agno: u32) -> (r: Result<
    Agi,
    ReadError,
>)
    ensures
        match ag_sector_place(*sb, agno, 2) {
            None => r == Err::<Agi, ReadError>(ReadError::Device(DeviceError::OutOfRange)) && *final(dev)
                == *old(dev),
            Some(off) => {
                &&& final(dev).requests().len() > old(dev).requests().len()
                &&& final(dev).requests().subrange(0, old(dev).requests().len() as int) == old(dev).requests()
                &&& agi_read_outcome(*sb, off, final(dev).requests(), old(dev).requests().len() as int, r)
            },
        },
        agno >= sb.ag_count ==> r == Err::<Agi, ReadError>(ReadError::Device(DeviceError::OutOfRange)),
        r matches Ok(agi) ==> {
            &&& agno < sb.ag_count
            &&& is_decoded_agi(agi)
            &&& sb.version == XFS_SB_VERSION_5 ==> sector_crc_checked(
                sb.sector_size,
                XFS_AGI_CRC_OFF as int,
            )
        },
{
    let ghost o = old(dev).requests();
    let ghost b = o.len() as int;
    let offset = ag_sector_offset(sb, agno, 2)?;
    let raw = match read_exact(dev, offset, XFS_AGI_SIZE) {
        Ok(v) => v,
        Err(e) => {
            proof {
                lemma_single_read(o, dev.requests(), offset, XFS_AGI_SIZE as nat);
                assert(dev.requests().subrange(0, b) =~= o);
                assert(agi_read_outcome(*sb, offset, dev.requests(), b, Err(e))) by {
                    reveal(agi_read_outcome);
                }
            }
            return Err(e);
        },
    };
    let ghost f1 = dev.requests();
    proof {
        lemma_single_read(o, f1, offset, XFS_AGI_SIZE as nat);
        assert(f1.subrange(0, b) =~= o);
    }
    let a = match Agi::parse(raw.as_slice()) {
        Ok(a) => a,
        Err(e) => {
            proof {
                assert(agi_read_outcome(*sb, offset, f1, b, Err(ReadError::Parse(e)))) by {
                    reveal(agi_read_outcome);
                }
            }
            return Err(ReadError::Parse(e));
        },
    };
    assert(is_decoded_agi(a)) by {
        reveal(is_decoded_agi);
        assert(agi_decodes_to(raw@, a));
    }
    if sb.is_v5() {
        let sector_size = match ensure_sector_size(sb.sector_size) {
            Ok(n) => n,
            Err(e) => {
                proof {
                    assert(agi_read_outcome(*sb, offset, f1, b, Err(e))) by {
                        reveal(agi_read_outcome);
                    }
                }
                return Err(e);
            },
        };
        let sector_r = read_exact(dev, offset, sector_size);
        let ghost f2 = dev.requests();
        proof {
            lemma_single_read(f1, f2, offset, sector_size as nat);
            lemma_one_more_read(o, f1, seq![(offset, XFS_AGI_SIZE as nat)], offset, sector_size as nat, read_answer(f2, f1.len() as int));
            assert(f2.subrange(0, b) =~= o);
        }
        let sector = match sector_r {
            Ok(v) => v,
            Err(e) => {
                proof {
                    assert(agi_read_outcome(*sb, offset, f2, b, Err(e))) by {
                        reveal(agi_read_outcome);
                    }
                }
                return Err(e);
            },
        };
        match check_xfs_crc(sector.as_slice(), XFS_AGI_CRC_OFF, "agi") {
            Ok(()) => {},
            Err(e) => {
                proof {
                    assert(agi_read_outcome(*sb, offset, f2, b, Err(e))) by {
                        reveal(agi_read_outcome);
                    }
                }
                return Err(e);
            },
        }
        assert(sector_crc_checked(sb.sector_size, XFS_AGI_CRC_OFF as int)) by {
            reveal(sector_crc_checked);
            assert(xfs_crc_ok(sector@, XFS_AGI_CRC_OFF as int));
        }
        proof {
            assert(agi_read_outcome(*sb, offset, f2, b, Ok(a))) by {
                reveal(agi_read_outcome);
            }
        }
    } else {
        proof {
            assert(agi_read_outcome(*sb, offset, f1, b, Ok(a))) by {
                reveal(agi_read_outcome);
            }
        }
    }
    Ok(a)
}

/// What reading the AGFL of a group gives, the requests from `f[b]` on being
/// those it made: a read of the whole sector at `off`, answered with an
/// error, or with a sector that, on version 5, fails its checksum, does not
/// decode, or decodes.
#[verifier::opaque]
pub open spec fn agfl_read_outcome(sb: Superblock, off: u64, f: Seq<DeviceRequest>, b: int, r: Result<Agfl, ReadError>) -> bool {
    &&& read_at_place(f, b, off, sb.sector_size as nat)
    &&& f.len() == b + 1
    &&& match read_answer(f, b) {
        Err(e) => r == Err::<Agfl, ReadError>(ReadError::Device(e)),
        Ok(sec) => {
            &&& sec.len() == sb.sector_size
            &&& if sb.version == XFS_SB_VERSION_5 && !xfs_crc_ok(sec, XFS_AGFL_CRC_OFF as int) {
                r == Err::<Agfl, ReadError>(ReadError::Parse(ParseError::CrcMismatch { what: "agfl" }))
            } else {
                match agfl_error(sec, sb.sector_size) {
                    Some(e) => r == Err::<Agfl, ReadError>(ReadError::Parse(e)),
                    None => r matches Ok(a) && agfl_decodes_to(
                        sec,
                        sb.sector_size,
                        sb.version == XFS_SB_VERSION_5,
                        a,
                    ),
                }
            }
        },
    }
}

/// Reads the AGFL sector of allocation group `agno`, three sectors after the
/// group's superblock. On a version 5 filesystem its checksum is checked.
///
/// The reads it makes and the result for each answer are stated by
/// [`agfl_read_outcome`]. Whatever the device gives, an AGFL is returned only
/// when it decoded from the sector that was read, and on version 5 that
/// sector carried a valid checksum.
///
/// # Errors
///
/// * `Parse(InvalidField)` - the sector size is above [`XFS_MAX_SECTOR_SIZE`].
/// * `Device(OutOfRange)` - the filesystem has no group `agno`, or the group
///   lies beyond 64-bit offsets.
/// * [`ReadError`] - what the device or the decoding reports.
pub fn read_agfl<D: BlockDevice>(dev: &mut D, sb: &Superblock, agno: u32) -> (r: Result<
    Agfl,
    ReadError,
>)
    ensures
        sb.sector_size > XFS_MAX_SECTOR_SIZE ==> *final(dev) == *old(dev),
        sb.sector_size <= XFS_MAX_SECTOR_SIZE ==> match ag_sector_place(*sb, agno, 3) {
            None => r == Err::<Agfl, ReadError>(ReadError::Device(DeviceError::OutOfRange)) && *final(dev)
                == *old(dev),
            Some(off) => {
                &&& final(dev).requests().len() > old(dev).requests().len()
                &&& final(dev).requests().subrange(0, old(dev).requests().len() as int) == old(dev).requests()
                &&& agfl_read_outcome(*sb, off, final(dev).requests(), old(dev).requests().len() as int, r)
            },
        },
        sb.sector_size > XFS_MAX_SECTOR_SIZE ==> r == Err::<Agfl, ReadError>(
            ReadError::Parse(ParseError::InvalidField { field: "sector_size", value: sb.sector_size as u64 }),
        ),
        sb.sector_size <= XFS_MAX_SECTOR_SIZE && agno >= sb.ag_count ==> r == Err::<Agfl, ReadError>(
            ReadError::Device(DeviceError::OutOfRange),
        ),
        r matches Ok(agfl) ==> agno < sb.ag_count && is_decoded_agfl(
            agfl,
            sb.sector_size,
            sb.version == XFS_SB_VERSION_5,
        ),
{
    let ghost o = old(dev).requests();
    let ghost b = o.len() as int;
    let sector_size = ensure_sector_size(sb.sector_size)?;
    let offset = ag_sector_offset(sb, agno, 3)?;
    let sector_r = read_exact(dev, offset, sector_size);
    let ghost f1 = dev.requests();
    proof {
        lemma_single_read(o, f1, offset, sector_size as nat);
        assert(f1.subrange(0, b) =~= o);
    }
    let sector = match sector_r {
        Ok(v) => v,
        Err(e) => {
            proof {
                assert(agfl_read_outcome(*sb, offset, f1, b, Err(e))) by {
                    reveal(agfl_read_outcome);
                }
            }
            return Err(e);
        },
    };
    if sb.is_v5() {
        match check_xfs_crc(sector.as_slice(), XFS_AGFL_CRC_OFF, "agfl") {
            Ok(()) => {},
            Err(e) => {
                proof {
                    assert(agfl_read_outcome(*sb, offset, f1, b, Err(e))) by {
                        reveal(agfl_read_outcome);
                    }
                }
                return Err(e);
            },
        }
    }
    match Agfl::parse(sector.as_slice(), sb.sector_size, sb.is_v5()) {
        Ok(agfl) => {
            assert(is_decoded_agfl(agfl, sb.sector_size, sb.version == XFS_SB_VERSION_5)) by {
                reveal(is_decoded_agfl);
                assert(agfl_error(sector@, sb.sector_size) is None);
            }
            proof {
                assert(agfl_read_outcome(*sb, offset, f1, b, Ok(agfl))) by {
                    reveal(agfl_read_outcome);
                }
            }
            Ok(agfl)
        },
        Err(e) => {
            proof {
                assert(agfl_read_outcome(*sb, offset, f1, b, Err(ReadError::Parse(e)))) by {
                    reveal(agfl_read_outcome);
                }
            }
            Err(ReadError::Parse(e))
        },
    }
}

/// The byte offset of block `block` of allocation group `agno`, or `None`
/// when the group does not exist or the offset does not fit 64 bits.
pub open spec fn ag_block_place(sb: Superblock, agno: u32, block: u32) -> Option<u64> {
    if agno >= sb.ag_count || ag_start_of(sb, agno as int) + block * sb.block_size > u64::MAX {
        None
    } else {
        Some((ag_start_of(sb, agno as int) + block * sb.block_size) as u64)
    }
}

/// Reads the filesystem block `block` of allocation group `agno` into the
/// first `block_size` bytes of `scratch`.
fn read_ag_block<D: BlockDevice>(
    dev: &mut D,
    sb: &Superblock,
    agno: u32,
    block: u32,
    scratch: &mut [u8],
) -> (r: Result<(), ReadError>)
    requires
        old(scratch)@.len() >= sb.block_size,
    ensures
        final(scratch)@.len() == old(scratch)@.len(),
        match ag_block_place(*sb, agno, block) {
            None => r == Err::<(), ReadError>(ReadError::Device(DeviceError::OutOfRange))
                && *final(dev) == *old(dev),
            Some(off) => {
                &&& followed_by_reads(
                    old(dev).requests(),
                    final(dev).requests(),
                    seq![(off, sb.block_size as nat)],
                )
                &&& match read_answer(final(dev).requests(), old(dev).requests().len() as int) {
                    Err(e) => r == Err::<(), ReadError>(ReadError::Device(e)),
                    Ok(bytes) => r is Ok && bytes.len() == sb.block_size
                        && final(scratch)@.subrange(0, sb.block_size as int) == bytes,
                }
            },
        },
{
    let blksz = sb.block_size as usize;
    let start = ag_start(sb, agno)?;
    let b = block as u64;
    let bs = sb.block_size as u64;
    assert(b * bs <= 0xffff_ffff * 0xffff_ffff) by (nonlinear_arith)
        requires
            b <= 0xffff_ffff,
            bs <= 0xffff_ffff,
    ;
    let in_ag = b * bs;
    let offset = match start.checked_add(in_ag) {
        Some(off) => off,
        None => return Err(ReadError::Device(DeviceError::OutOfRange)),
    };
    let block_bytes = read_exact(dev, offset, blksz)?;
    put_bytes(scratch, 0, block_bytes.as_slice());
    proof {
        lemma_with_bytes_len(old(scratch)@, 0, block_bytes@);
        lemma_with_bytes_same(old(scratch)@, 0, block_bytes@);
    }
    Ok(())
}

/// What reading an inode tree root gives when the device answered `answer`
/// to the read of its block: the device's error; on version 5 a checksum
/// error on `what`; the decoding error; or the decoded root.
pub open spec fn btree_root_outcome(
    sb: Superblock,
    kind: InodeBtreeKind,
    what: &'static str,
    answer: Result<Seq<u8>, DeviceError>,
    r: Result<InodeBtreeRoot, ReadError>,
) -> bool {
    match answer {
        Err(e) => r == Err::<InodeBtreeRoot, ReadError>(ReadError::Device(e)),
        Ok(blk) => if sb.version == XFS_SB_VERSION_5 && !xfs_crc_ok(blk, XFS_BTREE_SBLOCK_CRC_OFF as int) {
            r == Err::<InodeBtreeRoot, ReadError>(ReadError::Parse(ParseError::CrcMismatch { what }))
        } else {
            match inobt_error(blk, kind, sb.version == XFS_SB_VERSION_5) {
                Some(e) => r == Err::<InodeBtreeRoot, ReadError>(ReadError::Parse(e)),
                None => r matches Ok(root) && inobt_decodes_to(blk, kind, root),
            }
        },
    }
}

/// Reads the root block `root` of the tree `kind` in group `agno` through
/// `scratch`, checks its checksum on version 5 and decodes it.
fn read_btree_root<D: BlockDevice>(
    dev: &mut D,
    sb: &Superblock,
    root: u32,
    agno: u32,
    scratch: &mut [u8],
    kind: InodeBtreeKind,
    what: &'static str,
) -> (r: Result<InodeBtreeRoot, ReadError>)
    ensures
        old(scratch)@.len() >= sb.block_size ==> match ag_block_place(*sb, agno, root) {
            None => r == Err::<InodeBtreeRoot, ReadError>(ReadError::Device(DeviceError::OutOfRange))
                && *final(dev) == *old(dev),
            Some(off) => {
                &&& followed_by_reads(
                    old(dev).requests(),
                    final(dev).requests(),
                    seq![(off, sb.block_size as nat)],
                )
                &&& btree_root_outcome(
                    *sb,
                    kind,
                    what,
                    read_answer(final(dev).requests(), old(dev).requests().len() as int),
                    r,
                )
            },
        },
        old(scratch)@.len() < sb.block_size ==> *final(dev) == *old(dev),
        final(scratch)@.len() == old(scratch)@.len(),
        old(scratch)@.len() < sb.block_size ==> r == Err::<InodeBtreeRoot, ReadError>(
            ReadError::Device(
                DeviceError::ShortRead {
                    expected: sb.block_size as usize,
                    actual: old(scratch)@.len() as usize,
                },
            ),
        ) && final(scratch)@ == old(scratch)@,
        old(scratch)@.len() >= sb.block_size && agno >= sb.ag_count ==> r == Err::<
            InodeBtreeRoot,
            ReadError,
        >(ReadError::Device(DeviceError::OutOfRange)),
        r matches Ok(root) ==> {
            let blk = final(scratch)@.subrange(0, sb.block_size as int);
            &&& agno < sb.ag_count
            &&& sb.version == XFS_SB_VERSION_5 ==> xfs_crc_ok(blk, XFS_BTREE_SBLOCK_CRC_OFF as int)
            &&& inobt_error(blk, kind, sb.version == XFS_SB_VERSION_5) is None
            &&& inobt_decodes_to(blk, kind, root)
        },
{
    let blksz = sb.block_size as usize;
    if scratch.len() < blksz {
        return Err(
            ReadError::Device(DeviceError::ShortRead { expected: blksz, actual: scratch.len() }),
        );
    }
    read_ag_block(dev, sb, agno, root, scratch)?;
    let blk = &scratch[0..blksz];
    if sb.is_v5() {
        check_xfs_crc(blk, XFS_BTREE_SBLOCK_CRC_OFF, what)?;
    }
    match InodeBtreeRoot::parse(blk, kind, sb.is_v5()) {
        Ok(root) => Ok(root),
        Err(e) => Err(ReadError::Parse(e)),
    }
}

/// Reads the root block of the inode B+tree of group `agno` through
/// `scratch`, whose first `block_size` bytes receive the block. On a version
/// 5 filesystem the block's checksum is checked.
///
/// # Errors
///
/// * `Device(ShortRead)` - `scratch` is smaller than a block.
/// * `Device(OutOfRange)` - the filesystem has no group `agno`, or the block
///   lies beyond 64-bit offsets.
/// * [`ReadError`] - what the device or the decoding reports.
pub fn read_inobt_root<D: BlockDevice>(
    dev: &mut D,
    sb: &Superblock,
    agi: &Agi,
    agno: u32,
    scratch: &mut [u8],
) -> (r: Result<InodeBtreeRoot, ReadError>)
    ensures
        old(scratch)@.len() >= sb.block_size ==> match ag_block_place(*sb, agno, agi.root) {
            None => r == Err::<InodeBtreeRoot, ReadError>(ReadError::Device(DeviceError::OutOfRange))
                && *final(dev) == *old(dev),
            Some(off) => {
                &&& followed_by_reads(
                    old(dev).requests(),
                    final(dev).requests(),
                    seq![(off, sb.block_size as nat)],
                )
                &&& btree_root_outcome(
                    *sb,
                    InodeBtreeKind::Inobt,
                    "inobt root",
                    read_answer(final(dev).requests(), old(dev).requests().len() as int),
                    r,
                )
            },
        },
        old(scratch)@.len() < sb.block_size ==> *final(dev) == *old(dev),
        final(scratch)@.len() == old(scratch)@.len(),
        old(scratch)@.len() < sb.block_size ==> r == Err::<InodeBtreeRoot, ReadError>(
            ReadError::Device(
                DeviceError::ShortRead {
                    expected: sb.block_size as usize,
                    actual: old(scratch)@.len() as usize,
                },
            ),
        ) && final(scratch)@ == old(scratch)@,
        old(scratch)@.len() >= sb.block_size && agno >= sb.ag_count ==> r == Err::<
            InodeBtreeRoot,
            ReadError,
        >(ReadError::Device(DeviceError::OutOfRange)),
        r matches Ok(root) ==> {
            let blk = final(scratch)@.subrange(0, sb.block_size as int);
            &&& agno < sb.ag_count
            &&& sb.version == XFS_SB_VERSION_5 ==> xfs_crc_ok(blk, XFS_BTREE_SBLOCK_CRC_OFF as int)
            &&& inobt_error(blk, InodeBtreeKind::Inobt, sb.version == XFS_SB_VERSION_5) is None
            &&& inobt_decodes_to(blk, InodeBtreeKind::Inobt, root)
        },
{
    read_btree_root(dev, sb, agi.root, agno, scratch, InodeBtreeKind::Inobt, "inobt root")
}

/// Reads the root block of the free inode B+tree of group `agno` through
/// `scratch`, whose first `block_size` bytes receive the block. On a version
/// 5 filesystem the block's checksum is checked.
///
/// # Errors
///
/// * `Device(ShortRead)` - `scratch` is smaller than a block.
/// * `Device(OutOfRange)` - the filesystem has no group `agno`, or the block
///   lies beyond 64-bit offsets.
/// * [`ReadError`] - what the device or the decoding reports.
pub fn read_finobt_root<D: BlockDevice>(
    dev: &mut D,
    sb: &Superblock,
    agi: &Agi,
    agno: u32,
    scratch: &mut [u8],
) -> (r: Result<InodeBtreeRoot, ReadError>)
    ensures
        old(scratch)@.len() >= sb.block_size ==> match ag_block_place(*sb, agno, agi.free_root) {
            None => r == Err::<InodeBtreeRoot, ReadError>(ReadError::Device(DeviceError::OutOfRange))
                && *final(dev) == *old(dev),
            Some(off) => {
                &&& followed_by_reads(
                    old(dev).requests(),
                    final(dev).requests(),
                    seq![(off, sb.block_size as nat)],
                )
                &&& btree_root_outcome(
                    *sb,
                    InodeBtreeKind::Finobt,
                    "finobt root",
                    read_answer(final(dev).requests(), old(dev).requests().len() as int),
                    r,
                )
            },
        },
        old(scratch)@.len() < sb.block_size ==> *final(dev) == *old(dev),
        final(scratch)@.len() == old(scratch)@.len(),
        old(scratch)@.len() < sb.block_size ==> r == Err::<InodeBtreeRoot, ReadError>(
            ReadError::Device(
                DeviceError::ShortRead {
                    expected: sb.block_size as usize,
                    actual: old(scratch)@.len() as usize,
                },
            ),
        ) && final(scratch)@ == old(scratch)@,
        old(scratch)@.len() >= sb.block_size && agno >= sb.ag_count ==> r == Err::<
            InodeBtreeRoot,
            ReadError,
        >(ReadError::Device(DeviceError::OutOfRange)),
        r matches Ok(root) ==> {
            let blk = final(scratch)@.subrange(0, sb.block_size as int);
            &&& agno < sb.ag_count
            &&& sb.version == XFS_SB_VERSION_5 ==> xfs_crc_ok(blk, XFS_BTREE_SBLOCK_CRC_OFF as int)
            &&& inobt_error(blk, InodeBtreeKind::Finobt, sb.version == XFS_SB_VERSION_5) is None
            &&& inobt_decodes_to(blk, InodeBtreeKind::Finobt, root)
        },
{
    read_btree_root(dev, sb, agi.free_root, agno, scratch, InodeBtreeKind::Finobt, "finobt root")
}

/// Reads inode `ino` through `scratch`, whose first `inode_size` bytes
/// receive the inode. On a version 5 filesystem its checksum is checked.
///
/// # Errors
///
/// * `Device(ShortRead)` - `scratch` is smaller than an inode.
/// * `Device(OutOfRange)` - the inode number names no place on the device
///   (see [`inode_location`]).
/// * [`ReadError`] - what the device or the decoding reports.
pub fn read_inode<D: BlockDevice>(dev: &mut D, sb: &Superblock, ino: u64, scratch: &mut [u8]) -> (r:
    Result<Inode, ReadError>)
    ensures
        final(scratch)@.len() == old(scratch)@.len(),
        old(scratch)@.len() < sb.inode_size ==> r == Err::<Inode, ReadError>(
            ReadError::Device(
                DeviceError::ShortRead {
                    expected: sb.inode_size as usize,
                    actual: old(scratch)@.len() as usize,
                },
            ),
        ) && final(scratch)@ == old(scratch)@ && *final(dev) == *old(dev),
        old(scratch)@.len() >= sb.inode_size && inode_location(*sb, ino) is None ==> r == Err::<
            Inode,
            ReadError,
        >(ReadError::Device(DeviceError::OutOfRange)) && *final(dev) == *old(dev),
        r matches Ok(n) ==> inode_read_from(*sb, ino, final(scratch)@, n),
        old(scratch)@.len() >= sb.inode_size ==> match inode_location(*sb, ino) {
            None => true,
            Some(loc) => {
                &&& followed_by_reads(
                    old(dev).requests(),
                    final(dev).requests(),
                    seq![(loc as u64, sb.inode_size as nat)],
                )
                &&& inode_outcome(
                    *sb,
                    read_answer(final(dev).requests(), old(dev).requests().len() as int),
                    final(scratch)@,
                    r,
                )
            },
        },
{
    let inosz = sb.inode_size as usize;
    if scratch.len() < inosz {
        return Err(
            ReadError::Device(DeviceError::ShortRead { expected: inosz, actual: scratch.len() }),
        );
    }
    let offset = inode_offset(sb, ino)?;
    let raw = read_exact(dev, offset, inosz)?;
    put_bytes(scratch, 0, raw.as_slice());
    proof {
        lemma_with_bytes_len(old(scratch)@, 0, raw@);
        lemma_with_bytes_same(old(scratch)@, 0, raw@);
    }
    let blk = &scratch[0..inosz];
    if sb.is_v5() {
        check_xfs_crc(blk, XFS_DINODE_CRC_OFF, "inode")?;
    }
    match Inode::parse(blk) {
        Ok(n) => Ok(n),
        Err(e) => Err(ReadError::Parse(e)),
    }
}

/// What reading an inode gives when the device answered `answer` to the read
/// of its `inode_size` bytes and the scratch buffer holds `s` afterwards: the
/// device's error; or, the bytes having been copied to the start of `s`, a
/// checksum error on version 5 when they do not verify, the decoding error,
/// or the decoded inode.
pub open spec fn inode_outcome(
    sb: Superblock,
    answer: Result<Seq<u8>, DeviceError>,
    s: Seq<u8>,
    r: Result<Inode, ReadError>,
) -> bool {
    match answer {
        Err(e) => r == Err::<Inode, ReadError>(ReadError::Device(e)),
        Ok(raw) => {
            &&& raw.len() == sb.inode_size
            &&& s.subrange(0, sb.inode_size as int) == raw
            &&& if sb.version == XFS_SB_VERSION_5 && !xfs_crc_ok(raw, XFS_DINODE_CRC_OFF as int) {
                r == Err::<Inode, ReadError>(
                    ReadError::Parse(ParseError::CrcMismatch { what: "inode" }),
                )
            } else {
                match inode_error(raw) {
                    Some(e) => r == Err::<Inode, ReadError>(ReadError::Parse(e)),
                    None => r matches Ok(n) && inode_decodes_to(raw, n),
                }
            }
        },
    }
}

/// `n` is the inode `ino` as read through a scratch buffer that holds `s`
/// afterwards: the inode number names a place on the device, the first
/// `inode_size` bytes of `s` decode to `n`, and on version 5 their checksum
/// is valid.
pub open spec fn inode_read_from(sb: Superblock, ino: u64, s: Seq<u8>, n: Inode) -> bool {
    let blk = s.subrange(0, sb.inode_size as int);
    &&& inode_location(sb, ino) is Some
    &&& s.len() >= sb.inode_size
    &&& sb.version == XFS_SB_VERSION_5 ==> xfs_crc_ok(blk, XFS_DINODE_CRC_OFF as int)
    &&& inode_error(blk) is None
    &&& inode_decodes_to(blk, n)
}

// ---------------------------------------------------------------- directories

/// One entry of a directory listing.
#[derive(Debug, Clone, PartialEq, Eq)]
pub struct DirEntry {
    pub ino: u64,
    pub name: String,
    pub ftype: u8,
}

/// The file type that directory entries give to directories.
pub const XFS_DIR3_FT_DIR: u8 = 2;

/// An entry as the specifications see it: inode number, name, file type.
pub open spec fn dir_entry_view(e: DirEntry) -> (u64, Seq<char>, u8) {
    (e.ino, e.name@, e.ftype)
}

/// The entries of a listing as the specifications see them.
pub open spec fn dir_entry_views(v: Seq<DirEntry>) -> Seq<(u64, Seq<char>, u8)> {
    v.map_values(|e: DirEntry| dir_entry_view(e))
}

/// The `n` short-form entries that follow one another from `data[pos]`, or
/// the error that stops the first one that does not fit.
pub open spec fn sf_entries(data: Seq<u8>, pos: int, n: nat, i8count: u8, has_ftype: bool) -> Result<
    Seq<(u64, Seq<char>, u8)>,
    ParseError,
>
    decreases n,
{
    if n == 0 {
        Ok(Seq::empty())
    } else {
        let b = data.subrange(pos, data.len() as int);
        match dir_entry_error(b, i8count, has_ftype) {
            Some(e) => Err(e),
            None => match sf_entries(
                data,
                pos + dir_entry_len(b, i8count, has_ftype),
                (n - 1) as nat,
                i8count,
                has_ftype,
            ) {
                Ok(rest) => Ok(
                    seq![
                        (
                            dir_entry_inumber(b, i8count, has_ftype),
                            dir_entry_name(b),
                            dir_entry_ftype(b, has_ftype),
                        ),
                    ] + rest,
                ),
                Err(e) => Err(e),
            },
        }
    }
}

/// `done` followed by the entries of `rest`, or the error of `rest`.
pub open spec fn after_entries(
    done: Seq<(u64, Seq<char>, u8)>,
    rest: Result<Seq<(u64, Seq<char>, u8)>, ParseError>,
) -> Result<Seq<(u64, Seq<char>, u8)>, ParseError> {
    match rest {
        Ok(r) => Ok(done + r),
        Err(e) => Err(e),
    }
}

/// The listing of directory `ino`, whose inode core is `n` and whose data fork
/// holds `data`: "." and ".." first, then, for a short-form directory, its
/// entries in order. Directories in other formats list only "." and "..",
/// both naming `ino`. An inode that is not a directory has no listing.
pub open spec fn dir_listing(ino: u64, n: Inode, data: Seq<u8>, has_ftype: bool) -> Result<
    Seq<(u64, Seq<char>, u8)>,
    ReadError,
> {
    if n.mode & 0xf000 != 0x4000 {
        Err(ReadError::Parse(ParseError::InvalidField { field: "mode", value: n.mode as u64 }))
    } else if n.format == InodeFormat::Local {
        match dir_header_error(data) {
            Some(e) => Err(ReadError::Parse(e)),
            None => match sf_entries(data, dir_header_len(data), data[0] as nat, data[1], has_ftype) {
                Ok(es) => Ok(
                    seq![
                        (ino, seq!['.'], XFS_DIR3_FT_DIR),
                        (dir_header_parent(data), seq!['.', '.'], XFS_DIR3_FT_DIR),
                    ] + es,
                ),
                Err(e) => Err(ReadError::Parse(e)),
            },
        }
    } else {
        Ok(seq![(ino, seq!['.'], XFS_DIR3_FT_DIR), (ino, seq!['.', '.'], XFS_DIR3_FT_DIR)])
    }
}

/// Lists directory `ino_num` from its inode core `inode` and the bytes `data`
/// of its data fork.
///
/// # Errors
///
/// * `Parse(InvalidField)` - the inode is not a directory.
/// * `Parse(BufferTooSmall)` - a short-form header or entry overruns the fork.
pub fn dir_entries_from_inode(ino_num: u64, inode: &Inode, data: &[u8], has_ftype: bool) -> (r:
    Result<Vec<DirEntry>, ReadError>)
    ensures
        match dir_listing(ino_num, *inode, data@, has_ftype) {
            Ok(s) => r matches Ok(v) && dir_entry_views(v@) == s,
            Err(e) => r == Err::<Vec<DirEntry>, ReadError>(e),
        },
{
    if (inode.mode & 0xf000) != 0x4000 {
        return Err(
            ReadError::Parse(ParseError::InvalidField { field: "mode", value: inode.mode as u64 }),
        );
    }
    proof {
        reveal_strlit(".");
        reveal_strlit("..");
    }
    let mut entries: Vec<DirEntry> = Vec::new();
    match inode.format {
        InodeFormat::Local => {
            let (hdr, start) = match DirSfHeader::parse(data) {
                Ok(x) => x,
                Err(e) => return Err(ReadError::Parse(e)),
            };
            entries.push(DirEntry { ino: ino_num, name: ".".to_owned(), ftype: XFS_DIR3_FT_DIR });
            entries.push(
                DirEntry { ino: hdr.parent, name: "..".to_owned(), ftype: XFS_DIR3_FT_DIR },
            );
            let ghost prefix = dir_entry_views(entries@);
            let ghost mut done: Seq<(u64, Seq<char>, u8)> = Seq::empty();
            let ghost total = sf_entries(data@, start as int, hdr.count as nat, hdr.i8count, has_ftype);
            proof {
                assert(prefix =~~= seq![
                    (ino_num, seq!['.'], XFS_DIR3_FT_DIR),
                    (dir_header_parent(data@), seq!['.', '.'], XFS_DIR3_FT_DIR),
                ]);
                assert(after_entries(done, total) =~= total) by {
                    if let Ok(t) = total {
                        assert(done + t =~= t);
                    }
                }
            }
            let mut pos = start;
            let mut i: u8 = 0;
            while i < hdr.count
                invariant
                    i <= hdr.count,
                    pos <= data@.len(),
                    dir_entry_views(entries@) == prefix + done,
                    dir_listing(ino_num, *inode, data@, has_ftype) == match total {
                        Ok(es) => Ok(prefix + es),
                        Err(e) => Err(ReadError::Parse(e)),
                    },
                    total == after_entries(
                        done,
                        sf_entries(data@, pos as int, (hdr.count - i) as nat, hdr.i8count, has_ftype),
                    ),
                decreases hdr.count - i,
            {
                let rest = &data[pos..data.len()];
                let ghost b = data@.subrange(pos as int, data@.len() as int);
                let ghost later = sf_entries(
                    data@,
                    pos + dir_entry_len(b, hdr.i8count, has_ftype),
                    (hdr.count - i - 1) as nat,
                    hdr.i8count,
                    has_ftype,
                );
                match DirSfEntry::parse(rest, hdr.i8count, has_ftype) {
                    Ok((entry, used)) => {
                        let ghost x = (entry.inumber, entry.name@, entry.ftype);
                        let ghost old_entries = entries@;
                        entries.push(DirEntry { ino: entry.inumber, name: entry.name, ftype: entry.ftype });
                        proof {
                            assert(dir_entry_views(entries@) =~= dir_entry_views(old_entries).push(x));
                            assert((prefix + done).push(x) =~= prefix + done.push(x));
                            if let Ok(l) = later {
                                assert(done + (seq![x] + l) =~= done.push(x) + l);
                            }
                            done = done.push(x);
                        }
                        pos = pos + used;
                        i = i + 1;
                    },
                    Err(e) => {
                        assert(rest@ == b);
                        assert(sf_entries(
                            data@,
                            pos as int,
                            (hdr.count - i) as nat,
                            hdr.i8count,
                            has_ftype,
                        ) == Err::<Seq<(u64, Seq<char>, u8)>, ParseError>(e));
                        return Err(ReadError::Parse(e));
                    },
                }
            }
            proof {
                assert(prefix + done + Seq::<(u64, Seq<char>, u8)>::empty() =~= prefix + done);
            }
            Ok(entries)
        },
        _ => {
            entries.push(DirEntry { ino: ino_num, name: ".".to_owned(), ftype: XFS_DIR3_FT_DIR });
            entries.push(DirEntry { ino: ino_num, name: "..".to_owned(), ftype: XFS_DIR3_FT_DIR });
            proof {
                assert(dir_entry_views(entries@) =~~= seq![
                    (ino_num, seq!['.'], XFS_DIR3_FT_DIR),
                    (ino_num, seq!['.', '.'], XFS_DIR3_FT_DIR),
                ]);
            }
            Ok(entries)
        },
    }
}

/// `v` is the listing of directory `ino` as read from a device: some inode
/// core `n` was read for `ino` (see [`inode_read_from`]) into a buffer `s` of
/// `inode_size` bytes, and `v` is the listing of `n` with the data fork that
/// follows the core in `s`.
#[verifier::opaque]
pub open spec fn is_dir_listing_of(sb: Superblock, ino: u64, v: Seq<(u64, Seq<char>, u8)>) -> bool {
    exists|s: Seq<u8>, n: Inode|
        {
            &&& s.len() == sb.inode_size
            &&& #[trigger] inode_read_from(sb, ino, s, n)
            &&& dir_listing(
                ino,
                n,
                s.subrange(XFS_DINODE_SIZE_V3 as int, s.len() as int),
                sb_has_incompat(sb, XFS_SB_FEAT_INCOMPAT_FTYPE),
            ) == Ok::<Seq<(u64, Seq<char>, u8)>, ReadError>(v)
        }
}

/// What listing a directory gives when the device answered `answer` to the
/// read of its inode: the device's error; on version 5 a checksum error; the
/// inode's decoding error; or the listing of the decoded inode with the data
/// fork that follows its core (see [`dir_listing`]).
pub open spec fn dir_read_outcome(
    sb: Superblock,
    ino: u64,
    answer: Result<Seq<u8>, DeviceError>,
    r: Result<Vec<DirEntry>, ReadError>,
) -> bool {
    match answer {
        Err(e) => r == Err::<Vec<DirEntry>, ReadError>(ReadError::Device(e)),
        Ok(raw) => {
            &&& raw.len() == sb.inode_size
            &&& if sb.version == XFS_SB_VERSION_5 && !xfs_crc_ok(raw, XFS_DINODE_CRC_OFF as int) {
                r == Err::<Vec<DirEntry>, ReadError>(
                    ReadError::Parse(ParseError::CrcMismatch { what: "inode" }),
                )
            } else {
                match inode_error(raw) {
                    Some(e) => r == Err::<Vec<DirEntry>, ReadError>(ReadError::Parse(e)),
                    None => exists|n: Inode|
                        #[trigger] inode_decodes_to(raw, n) && match dir_listing(
                            ino,
                            n,
                            raw.subrange(XFS_DINODE_SIZE_V3 as int, raw.len() as int),
                            sb_has_incompat(sb, XFS_SB_FEAT_INCOMPAT_FTYPE),
                        ) {
                            Ok(v) => r matches Ok(es) && dir_entry_views(es@) == v,
                            Err(e) => r == Err::<Vec<DirEntry>, ReadError>(e),
                        },
                }
            }
        },
    }
}

/// Lists directory `ino_num`: its inode is read, and its entries are taken
/// from its data fork as [`dir_entries_from_inode`] says.
///
/// # Errors
///
/// * `Device(OutOfRange)` - the inode number names no place on the device.
/// * [`ReadError`] - what the device, the decoding or
///   [`dir_entries_from_inode`] reports.
pub fn list_dir_entries<D: BlockDevice>(dev: &mut D, sb: &Superblock, ino_num: u64) -> (r: Result<
    Vec<DirEntry>,
    ReadError,
>)
    ensures
        inode_location(*sb, ino_num) is None ==> r == Err::<Vec<DirEntry>, ReadError>(
            ReadError::Device(DeviceError::OutOfRange),
        ) && *final(dev) == *old(dev),
        r matches Ok(v) ==> is_dir_listing_of(*sb, ino_num, dir_entry_views(v@)),
        match inode_location(*sb, ino_num) {
            None => true,
            Some(loc) => {
                &&& followed_by_reads(
                    old(dev).requests(),
                    final(dev).requests(),
                    seq![(loc as u64, sb.inode_size as nat)],
                )
                &&& dir_read_outcome(
                    *sb,
                    ino_num,
                    read_answer(final(dev).requests(), old(dev).requests().len() as int),
                    r,
                )
            },
        },
{
    let inosz = sb.inode_size as usize;
    let mut scratch = vec![0u8; inosz];
    let ir = read_inode(dev, sb, ino_num, scratch.as_mut_slice());
    let ghost s = scratch@;
    let inode = match ir {
        Ok(n) => n,
        Err(e) => {
            return Err(e);
        },
    };
    proof {
        assert(s =~= s.subrange(0, sb.inode_size as int));
    }
    let data = &scratch.as_slice()[XFS_DINODE_SIZE_V3..inosz];
    let has_ftype = sb.has_incompat_feature(XFS_SB_FEAT_INCOMPAT_FTYPE);
    let r = dir_entries_from_inode(ino_num, &inode, data, has_ftype);
    proof {
        assert(data@ =~= s.subrange(XFS_DINODE_SIZE_V3 as int, s.len() as int));
        assert(inode_decodes_to(s, inode));
        if r is Ok {
            assert(is_dir_listing_of(*sb, ino_num, dir_entry_views(r->Ok_0@))) by {
                reveal(is_dir_listing_of);
                assert(inode_read_from(*sb, ino_num, scratch@, inode));
            }
        }
    }
    r
}

// ---------------------------------------------------------------- file data

/// `a` or `b`, whichever is smaller.
pub open spec fn min_int(a: int, b: int) -> int {
    if a <= b {
        a
    } else {
        b
    }
}

/// The bytes of an inline file of `file_size` bytes whose data fork holds
/// `fork`: from `offset`, at most `size` of them, none past the end of the
/// file. `None` when the file claims bytes that the fork does not hold.
pub open spec fn inline_file_bytes(fork: Seq<u8>, file_size: int, offset: int, size: int) -> Option<
    Seq<u8>,
> {
    if offset >= file_size {
        Some(Seq::empty())
    } else if min_int(offset + size, file_size) > fork.len() {
        None
    } else {
        Some(fork.subrange(offset, min_int(offset + size, file_size)))
    }
}

/// Reads the bytes of an inline file from its data fork `fork`.
///
/// # Errors
///
/// * `Parse(InvalidField)` - the file's size runs past the data fork.
pub fn inline_file_data(fork: &[u8], file_size: u64, offset: u64, size: u32) -> (r: Result<
    Vec<u8>,
    ReadError,
>)
    ensures
        match inline_file_bytes(fork@, file_size as int, offset as int, size as int) {
            Some(d) => r matches Ok(v) && v@ == d,
            None => r == Err::<Vec<u8>, ReadError>(
                ReadError::Parse(ParseError::InvalidField { field: "size", value: file_size }),
            ),
        },
{
    if offset >= file_size {
        return Ok(Vec::new());
    }
    let want = offset.saturating_add(size as u64);
    let end = if want < file_size {
        want
    } else {
        file_size
    };
    if end > fork.len() as u64 {
        return Err(ReadError::Parse(ParseError::InvalidField { field: "size", value: file_size }));
    }
    Ok(slice_to_vec(&fork[offset as usize..end as usize]))
}

/// Why the data fork `fork` does not hold `nextents` extent records, or `None`.
pub open spec fn extent_list_error(fork: Seq<u8>, nextents: nat) -> Option<ParseError> {
    if XFS_BMBT_REC_SIZE * nextents <= fork.len() {
        None
    } else {
        Some(
            ParseError::BufferTooSmall {
                expected: XFS_BMBT_REC_SIZE,
                actual: (fork.len() % XFS_BMBT_REC_SIZE as nat) as usize,
            },
        )
    }
}

/// The `nextents` extents whose records stand one after the other at the start
/// of the data fork `fork`.
pub open spec fn extent_list(fork: Seq<u8>, nextents: nat) -> Seq<BmapExtent> {
    Seq::new(nextents, |i: int| bmap_extent_of(fork.subrange(16 * i, fork.len() as int)))
}

/// Decodes the `nextents` extent records at the start of the data fork `fork`.
///
/// # Errors
///
/// * `Parse(BufferTooSmall)` - the records overrun the fork; the error is that
///   of the first record that does not fit.
pub fn parse_extent_list(fork: &[u8], nextents: u32) -> (r: Result<Vec<BmapExtent>, ReadError>)
    ensures
        match extent_list_error(fork@, nextents as nat) {
            Some(e) => r == Err::<Vec<BmapExtent>, ReadError>(ReadError::Parse(e)),
            None => r matches Ok(v) && v@ == extent_list(fork@, nextents as nat),
        },
{
    let len = fork.len();
    if (nextents as u64) * 16 > len as u64 {
        return Err(
            ReadError::Parse(
                ParseError::BufferTooSmall { expected: XFS_BMBT_REC_SIZE, actual: len % 16 },
            ),
        );
    }
    let mut extents: Vec<BmapExtent> = Vec::new();
    let mut i: u32 = 0;
    while i < nextents
        invariant
            16 * nextents <= fork@.len(),
            fork@.len() == len,
            i <= nextents,
            extents@.len() == i,
            forall|j: int|
                0 <= j < i ==> #[trigger] extents@[j] == bmap_extent_of(
                    fork@.subrange(16 * j, fork@.len() as int),
                ),
        decreases nextents - i,
    {
        let at = (i as usize) * 16;
        let rec = &fork[at..len];
        match BmapExtent::parse(rec) {
            Ok(e) => {
                extents.push(e);
            },
            Err(_) => {
                assert(false);
                return Err(
                    ReadError::Parse(
                        ParseError::BufferTooSmall { expected: XFS_BMBT_REC_SIZE, actual: 0 },
                    ),
                );
            },
        }
        i = i + 1;
    }
    assert(extents@ =~= extent_list(fork@, nextents as nat));
    Ok(extents)
}

/// The byte offset of the first block of extent `e`, or `None` when it names
/// no place on the device. Its start block is made, from the top, of the
/// allocation group and the block in the group (`agblklog` bits).
pub open spec fn extent_location(sb: Superblock, e: BmapExtent) -> Option<u64> {
    let a = sb.agblklog as nat;
    if a >= 64 {
        None
    } else {
        let agno = e.startblock as int / pow2(a) as int;
        let agblk = e.startblock as int % pow2(a) as int;
        let blocks = agno * sb.ag_blocks + agblk;
        if blocks > u64::MAX || blocks * sb.block_size > u64::MAX {
            None
        } else {
            Some((blocks * sb.block_size) as u64)
        }
    }
}

/// The byte offset of the first block of extent `ext`, or `None` when it names
/// no place on the device.
pub fn extent_to_physical_offset(sb: &Superblock, ext: &BmapExtent) -> (r: Option<u64>)
    ensures
        r == extent_location(*sb, *ext),
{
    let a = sb.agblklog as u64;
    if a >= 64 {
        return None;
    }
    proof {
        lemma_u64_shr_is_div(ext.startblock, a);
        lemma_u64_pow2_no_overflow(a as nat);
        lemma_u64_shl_is_mul(1, a);
    }
    let agno = ext.startblock >> a;
    let agblk = ext.startblock % (1u64 << a);
    let blocks = match agno.checked_mul(sb.ag_blocks as u64) {
        Some(v) => v,
        None => return None,
    };
    let block = match blocks.checked_add(agblk) {
        Some(v) => v,
        None => return None,
    };
    block.checked_mul(sb.block_size as u64)
}

/// The device reads that fetch the file bytes from `cur` on, at most
/// `remaining` of them, from the extents `exts` taken in order: each extent
/// that holds `cur` gives one read of what it holds from `cur` on, up to
/// `remaining`, and the reading stops once nothing remains. Each read is
/// (device offset, length). `None` when a read would lie beyond 64-bit offsets.
pub open spec fn extent_reads(sb: Superblock, exts: Seq<BmapExtent>, cur: int, remaining: int) -> Option<
    Seq<(u64, u64)>,
>
    decreases exts.len(),
{
    if exts.len() == 0 {
        Some(Seq::empty())
    } else {
        let e = exts[0];
        let start = e.startoff * sb.block_size;
        let len = e.blockcount * sb.block_size;
        if start <= cur < start + len {
            let in_ext = cur - start;
            let t = min_int(len - in_ext, remaining);
            match extent_location(sb, e) {
                None => None,
                Some(p) => if p + in_ext > u64::MAX {
                    None
                } else {
                    let rest = if remaining - t == 0 {
                        Some(Seq::empty())
                    } else {
                        extent_reads(sb, exts.drop_first(), cur + t, remaining - t)
                    };
                    match rest {
                        Some(r) => Some(seq![((p + in_ext) as u64, t as u64)] + r),
                        None => None,
                    }
                },
            }
        } else {
            extent_reads(sb, exts.drop_first(), cur, remaining)
        }
    }
}

/// The device reads that fetch `size` bytes from `offset` of a file of
/// `file_size` bytes stored in the extents `exts`; none from `offset` on the
/// end of the file.
pub open spec fn file_extent_reads(
    sb: Superblock,
    exts: Seq<BmapExtent>,
    file_size: int,
    offset: int,
    size: int,
) -> Option<Seq<(u64, u64)>> {
    if offset >= file_size {
        Some(Seq::empty())
    } else {
        extent_reads(sb, exts, offset, min_int(size, file_size - offset))
    }
}

/// `done` followed by the reads of `rest`, or `None`.
pub open spec fn after_reads(done: Seq<(u64, u64)>, rest: Option<Seq<(u64, u64)>>) -> Option<
    Seq<(u64, u64)>,
> {
    match rest {
        Some(r) => Some(done + r),
        None => None,
    }
}

/// Plans the device reads that fetch `size` bytes from `offset` of a file of
/// `file_size` bytes stored in the extents `extents`.
///
/// # Errors
///
/// * `Device(OutOfRange)` - a read would lie beyond 64-bit offsets.
pub fn plan_extent_reads(
    sb: &Superblock,
    extents: &[BmapExtent],
    file_size: u64,
    offset: u64,
    size: u32,
) -> (r: Result<Vec<(u64, u64)>, ReadError>)
    ensures
        match file_extent_reads(*sb, extents@, file_size as int, offset as int, size as int) {
            Some(p) => r matches Ok(v) && v@ == p && forall|k: int|
                0 <= k < v@.len() ==> #[trigger] v@[k].1 <= 0xffff_ffff,
            None => r == Err::<Vec<(u64, u64)>, ReadError>(ReadError::Device(DeviceError::OutOfRange)),
        },
{
    let mut plan: Vec<(u64, u64)> = Vec::new();
    if offset >= file_size {
        return Ok(plan);
    }
    let mut remaining: u64 = if (size as u64) < file_size - offset {
        size as u64
    } else {
        file_size - offset
    };
    let mut cur = offset;
    let bs = sb.block_size as u128;
    let ghost total = file_extent_reads(*sb, extents@, file_size as int, offset as int, size as int);
    proof {
        assert(extents@.subrange(0, extents@.len() as int) =~= extents@);
        assert(after_reads(Seq::empty(), total) =~= total) by {
            if let Some(t) = total {
                assert(Seq::<(u64, u64)>::empty() + t =~= t);
            }
        }
    }
    let mut i: usize = 0;
    while i < extents.len()
        invariant
            i <= extents@.len(),
            bs == sb.block_size,
            remaining <= 0xffff_ffff,
            cur as int + remaining as int <= u64::MAX,
            total == file_extent_reads(*sb, extents@, file_size as int, offset as int, size as int),
            forall|k: int| 0 <= k < plan@.len() ==> #[trigger] plan@[k].1 <= 0xffff_ffff,
            total == after_reads(
                plan@,
                extent_reads(*sb, extents@.subrange(i as int, extents@.len() as int), cur as int, remaining as int),
            ),
        decreases extents@.len() - i,
    {
        let ext = extents[i];
        let ghost rest_exts = extents@.subrange(i as int, extents@.len() as int);
        proof {
            assert(rest_exts[0] == ext);
            assert(rest_exts.drop_first() =~= extents@.subrange(i + 1, extents@.len() as int));
        }
        let so = ext.startoff as u128;
        let bc = ext.blockcount as u128;
        assert(so * bs <= 0xffff_ffff_ffff_ffff * 0xffff_ffff && bc * bs <= 0xffff_ffff * 0xffff_ffff)
            by (nonlinear_arith)
            requires
                so <= 0xffff_ffff_ffff_ffff,
                bc <= 0xffff_ffff,
                bs <= 0xffff_ffff,
        ;
        let start = so * bs;
        let len = bc * bs;
        let c = cur as u128;
        let ghost cur0 = cur as int;
        let ghost rem0 = remaining as int;
        if start <= c && c < start + len {
            let in_ext = c - start;
            assert(in_ext <= cur);
            let avail = len - in_ext;
            let to_read: u64 = if avail < remaining as u128 {
                avail as u64
            } else {
                remaining
            };
            let base = match extent_to_physical_offset(sb, &ext) {
                Some(b) => b,
                None => {
                    assert(extent_reads(*sb, rest_exts, cur as int, remaining as int) is None);
                    return Err(ReadError::Device(DeviceError::OutOfRange));
                },
            };
            assert(extent_location(*sb, ext) == Some(base));
            let phy = match base.checked_add(in_ext as u64) {
                Some(p) => p,
                None => {
                    assert(base + in_ext > u64::MAX);
                    assert(extent_reads(*sb, rest_exts, cur as int, remaining as int) is None);
                    return Err(ReadError::Device(DeviceError::OutOfRange));
                },
            };
            let ghost old_plan = plan@;
            plan.push((phy, to_read));
            remaining = remaining - to_read;
            cur = cur + to_read;
            let ghost next = extents@.subrange(i + 1, extents@.len() as int);
            assert(extent_reads(*sb, rest_exts, cur0, rem0) == match (if remaining == 0 {
                Some(Seq::<(u64, u64)>::empty())
            } else {
                extent_reads(*sb, next, cur as int, remaining as int)
            }) {
                Some(r) => Some(seq![(phy, to_read)] + r),
                None => None,
            });
            if remaining == 0 {
                proof {
                    assert(old_plan + (seq![(phy, to_read)] + Seq::<(u64, u64)>::empty()) =~= plan@);
                }
                return Ok(plan);
            }
            proof {
                if let Some(r) = extent_reads(*sb, next, cur as int, remaining as int) {
                    assert(old_plan + (seq![(phy, to_read)] + r) =~= plan@ + r);
                }
            }
        }
        i = i + 1;
    }
    proof {
        assert(plan@ + Seq::<(u64, u64)>::empty() =~= plan@);
    }
    Ok(plan)
}

/// How many bytes the reads `p` fetch in all.
pub open spec fn planned_len(p: Seq<(u64, u64)>) -> int
    decreases p.len(),
{
    if p.len() == 0 {
        0
    } else {
        planned_len(p.drop_last()) + p.last().1
    }
}

/// What a read of a file comes down to once its inode has been read:
/// nothing, bytes held in the inode, or device reads.
#[derive(Debug, Clone, PartialEq, Eq)]
pub enum FileRead {
    Empty,
    Inline(Vec<u8>),
    Extents(Vec<(u64, u64)>),
}

/// A [`FileRead`] as the specifications see it.
pub enum FileReadView {
    Empty,
    Inline(Seq<u8>),
    Extents(Seq<(u64, u64)>),
}

/// `f` as the specifications see it.
pub open spec fn file_read_view(f: FileRead) -> FileReadView {
    match f {
        FileRead::Empty => FileReadView::Empty,
        FileRead::Inline(v) => FileReadView::Inline(v@),
        FileRead::Extents(v) => FileReadView::Extents(v@),
    }
}

/// What a read of `size` bytes from `offset` of the file whose inode core is
/// `n` and whose data fork holds `fork` comes down to: nothing for an inode
/// that is neither a regular file nor a symbolic link, or whose data is
/// neither inline nor in extents; the inline bytes; or the device reads that
/// [`file_extent_reads`] plans; or the error that stops it.
pub open spec fn file_read_plan(
    sb: Superblock,
    n: Inode,
    fork: Seq<u8>,
    offset: u64,
    size: u32,
) -> Result<FileReadView, ReadError> {
    let t = n.mode & 0xf000;
    let file_size = n.size as u64 as int;
    if t != 0x8000 && t != 0xa000 {
        Ok(FileReadView::Empty)
    } else if n.format == InodeFormat::Local {
        match inline_file_bytes(fork, file_size, offset as int, size as int) {
            Some(d) => Ok(FileReadView::Inline(d)),
            None => Err(
                ReadError::Parse(ParseError::InvalidField { field: "size", value: n.size as u64 }),
            ),
        }
    } else if n.format == InodeFormat::Extents {
        match extent_list_error(fork, n.nextents as nat) {
            Some(e) => Err(ReadError::Parse(e)),
            None => match file_extent_reads(
                sb,
                extent_list(fork, n.nextents as nat),
                file_size,
                offset as int,
                size as int,
            ) {
                Some(p) => Ok(FileReadView::Extents(p)),
                None => Err(ReadError::Device(DeviceError::OutOfRange)),
            },
        }
    } else {
        Ok(FileReadView::Empty)
    }
}

/// Decides what a read of `size` bytes from `offset` of the file whose inode
/// core is `inode` and whose data fork holds `fork` comes down to.
///
/// # Errors
///
/// * `Parse(InvalidField)` - inline data runs past the data fork.
/// * `Parse(BufferTooSmall)` - the extent records run past the data fork.
/// * `Device(OutOfRange)` - a planned read would lie beyond 64-bit offsets.
pub fn file_read_of_inode(sb: &Superblock, inode: &Inode, fork: &[u8], offset: u64, size: u32) -> (r:
    Result<FileRead, ReadError>)
    ensures
        match file_read_plan(*sb, *inode, fork@, offset, size) {
            Ok(p) => r matches Ok(f) && file_read_view(f) == p,
            Err(e) => r == Err::<FileRead, ReadError>(e),
        },
        r matches Ok(FileRead::Extents(p)) ==> forall|k: int|
            0 <= k < p@.len() ==> #[trigger] p@[k].1 <= 0xffff_ffff,
{
    let mode_type = inode.mode & 0xf000;
    if mode_type != 0x8000 && mode_type != 0xa000 {
        return Ok(FileRead::Empty);
    }
    match inode.format {
        InodeFormat::Local => match inline_file_data(fork, inode.size as u64, offset, size) {
            Ok(v) => Ok(FileRead::Inline(v)),
            Err(e) => Err(e),
        },
        InodeFormat::Extents => {
            let extents = parse_extent_list(fork, inode.nextents)?;
            let plan = plan_extent_reads(sb, extents.as_slice(), inode.size as u64, offset, size)?;
            Ok(FileRead::Extents(plan))
        },
        _ => Ok(FileRead::Empty),
    }
}

/// What the reads `p` give when made in order after the first `base`
/// requests of the record `f`, stopping at the first that the device
/// refuses: the bytes read, one read after the other, or that refusal.
pub open spec fn planned_reads_result(f: Seq<DeviceRequest>, base: int, p: Seq<(u64, u64)>) -> Result<
    Seq<u8>,
    DeviceError,
>
    decreases p.len(),
{
    if p.len() == 0 {
        Ok(Seq::empty())
    } else {
        match planned_reads_result(f, base, p.drop_last()) {
            Err(e) => Err(e),
            Ok(bs) => match read_answer(f, base + p.len() - 1) {
                Err(e) => Err(e),
                Ok(b) => Ok(bs + b),
            },
        }
    }
}

/// How many of the reads `p` are made, in the same reading: all of them, or
/// up to and with the first refused.
pub open spec fn planned_reads_made(f: Seq<DeviceRequest>, base: int, p: Seq<(u64, u64)>) -> nat
    decreases p.len(),
{
    if p.len() == 0 {
        0
    } else {
        match planned_reads_result(f, base, p.drop_last()) {
            Err(_) => planned_reads_made(f, base, p.drop_last()),
            Ok(_) => p.len(),
        }
    }
}

/// The reads `p` as (offset, length) places.
pub open spec fn read_places(p: Seq<(u64, u64)>) -> Seq<(u64, nat)> {
    p.map_values(|x: (u64, u64)| (x.0, x.1 as nat))
}

/// The reading of `p` from `base` on depends on the answers from `base` on
/// alone.
proof fn lemma_planned_reads_frame(
    f: Seq<DeviceRequest>,
    g: Seq<DeviceRequest>,
    base: int,
    p: Seq<(u64, u64)>,
)
    requires
        forall|i: int| base <= i < base + p.len() ==> #[trigger] read_answer(g, i) == read_answer(f, i),
    ensures
        planned_reads_result(g, base, p) == planned_reads_result(f, base, p),
        planned_reads_made(g, base, p) == planned_reads_made(f, base, p),
    decreases p.len(),
{
    if p.len() > 0 {
        lemma_planned_reads_frame(f, g, base, p.drop_last());
        assert(read_answer(g, base + p.len() - 1) == read_answer(f, base + p.len() - 1));
    }
}

/// Once a read is refused, the later reads of the plan are not made and do
/// not change the outcome.
proof fn lemma_planned_reads_stop(f: Seq<DeviceRequest>, base: int, p: Seq<(u64, u64)>, k: int)
    requires
        0 <= k <= p.len(),
        planned_reads_result(f, base, p.take(k)) is Err,
    ensures
        planned_reads_result(f, base, p) == planned_reads_result(f, base, p.take(k)),
        planned_reads_made(f, base, p) == planned_reads_made(f, base, p.take(k)),
    decreases p.len() - k,
{
    if k < p.len() {
        assert(p.take(k + 1).drop_last() =~= p.take(k));
        lemma_planned_reads_stop(f, base, p, k + 1);
    } else {
        assert(p.take(k) =~= p);
    }
}

/// Makes the reads `plan` in order, stopping at the first that the device
/// refuses, and returns the bytes read one after the other.
fn read_planned<D: BlockDevice>(dev: &mut D, plan: &Vec<(u64, u64)>) -> (r: Result<Vec<u8>, ReadError>)
    requires
        forall|k: int| 0 <= k < plan@.len() ==> #[trigger] plan@[k].1 <= 0xffff_ffff,
    ensures
        ({
            let o = old(dev).requests();
            let f = final(dev).requests();
            let m = planned_reads_made(f, o.len() as int, plan@);
            &&& m <= plan@.len()
            &&& followed_by_reads(o, f, read_places(plan@.take(m as int)))
            &&& match planned_reads_result(f, o.len() as int, plan@) {
                Ok(bs) => r matches Ok(v) && v@ == bs,
                Err(e) => r == Err::<Vec<u8>, ReadError>(ReadError::Device(e)),
            }
        }),
        r matches Ok(v) ==> v@.len() == planned_len(plan@),
{
    let ghost o = old(dev).requests();
    let ghost base = o.len() as int;
    let mut result: Vec<u8> = Vec::new();
    let mut failure: Option<DeviceError> = None;
    let mut j: usize = 0;
    proof {
        lemma_no_reads(o);
        assert(planned_len(plan@.take(0)) == 0);
        assert(read_places(plan@.take(0)) =~= Seq::<(u64, nat)>::empty());
        assert(plan@.take(0) =~= Seq::<(u64, u64)>::empty());
    }
    while j < plan.len()
        invariant_except_break
            j <= plan@.len(),
            base == o.len(),
            o == old(dev).requests(),
            forall|k: int| 0 <= k < plan@.len() ==> #[trigger] plan@[k].1 <= 0xffff_ffff,
            followed_by_reads(o, dev.requests(), read_places(plan@.take(j as int))),
            planned_reads_result(dev.requests(), base, plan@.take(j as int)) == Ok::<Seq<u8>, DeviceError>(
                result@,
            ),
            planned_reads_made(dev.requests(), base, plan@.take(j as int)) == j,
            result@.len() == planned_len(plan@.take(j as int)),
            failure is None,
        ensures
            j <= plan@.len(),
            base == o.len(),
            o == old(dev).requests(),
            followed_by_reads(o, dev.requests(), read_places(plan@.take(planned_reads_made(dev.requests(), base, plan@.take(j as int)) as int))),
            failure is None ==> j == plan@.len() && planned_reads_result(dev.requests(), base, plan@.take(j as int)) == Ok::<Seq<u8>, DeviceError>(result@) && result@.len() == planned_len(plan@.take(j as int)),
            failure matches Some(e) ==> planned_reads_result(dev.requests(), base, plan@.take(j as int)) == Err::<Seq<u8>, DeviceError>(e),
            planned_reads_made(dev.requests(), base, plan@.take(j as int)) == j,
        decreases plan@.len() - j,
    {
        let (off, len) = plan[j];
        let ghost before = dev.requests();
        let ghost prev = result@;
        let buf = read_exact(dev, off, len as usize);
        proof {
            assert(read_places(plan@.take(j as int)).len() == j);
            let a = read_answer(dev.requests(), before.len() as int);
            lemma_single_read(before, dev.requests(), off, len as nat);
            lemma_one_more_read(o, before, read_places(plan@.take(j as int)), off, len as nat, a);
            assert(read_places(plan@.take(j as int)).push((off, len as nat)) =~= read_places(plan@.take(j + 1)));
            lemma_planned_reads_frame(before, dev.requests(), base, plan@.take(j as int));
            assert(plan@.take(j + 1).drop_last() =~= plan@.take(j as int));
        }
        match buf {
            Ok(b) => {
                result.extend_from_slice(b.as_slice());
                proof {
                    let f = dev.requests();
                    let q = plan@.take(j + 1);
                    assert(q.len() == j + 1);
                    assert(read_answer(f, base + q.len() - 1) == Ok::<Seq<u8>, DeviceError>(b@));
                    assert(planned_reads_result(f, base, q.drop_last()) == Ok::<Seq<u8>, DeviceError>(prev));
                    assert(result@ == prev + b@);
                    assert(planned_reads_result(f, base, q) == Ok::<Seq<u8>, DeviceError>(result@));
                    assert(planned_reads_made(f, base, q) == j + 1);
                    assert(q.drop_last() =~= plan@.take(j as int));
                    assert(planned_len(q) == planned_len(plan@.take(j as int)) + len);
                }
            },
            Err(ReadError::Device(e)) => {
                proof {
                    let f = dev.requests();
                    let q = plan@.take(j + 1);
                    assert(q.len() == j + 1);
                    assert(read_answer(f, base + q.len() - 1) == Err::<Seq<u8>, DeviceError>(e));
                    assert(planned_reads_result(f, base, q.drop_last()) == Ok::<Seq<u8>, DeviceError>(prev));
                    assert(planned_reads_result(f, base, q) == Err::<Seq<u8>, DeviceError>(e));
                    assert(planned_reads_made(f, base, q) == j + 1);
                }
                failure = Some(e);
                j = j + 1;
                break;
            },
            Err(_) => {
                // read_exact reports only what the device answers
                proof {
                    assert(false);
                }
                failure = Some(DeviceError::Io);
                j = j + 1;
                break;
            },
        }
        j = j + 1;
    }
    proof {
        let f = dev.requests();
        if failure is Some {
            lemma_planned_reads_stop(f, base, plan@, j as int);
        } else {
            assert(plan@.take(j as int) =~= plan@);
        }
    }
    match failure {
        Some(e) => Err(ReadError::Device(e)),
        None => Ok(result),
    }
}

/// What a read of `size` bytes from `offset` of a file whose inode core is
/// `n` and whose data fork holds `fork` gives, when it gives `v`: nothing for
/// an inode that is neither a regular file nor a symbolic link, or whose data
/// is neither inline nor in extents; the inline bytes; or, for extents, as
/// many bytes as the planned device reads fetch.
pub open spec fn file_read_outcome(
    sb: Superblock,
    n: Inode,
    fork: Seq<u8>,
    offset: u64,
    size: u32,
    v: Seq<u8>,
) -> bool {
    let t = n.mode & 0xf000;
    if t != 0x8000 && t != 0xa000 {
        v.len() == 0
    } else if n.format == InodeFormat::Local {
        inline_file_bytes(fork, n.size as u64 as int, offset as int, size as int) == Some(v)
    } else if n.format == InodeFormat::Extents {
        &&& extent_list_error(fork, n.nextents as nat) is None
        &&& file_extent_reads(
            sb,
            extent_list(fork, n.nextents as nat),
            n.size as u64 as int,
            offset as int,
            size as int,
        ) matches Some(p)
        &&& v.len() == planned_len(p)
    } else {
        v.len() == 0
    }
}

/// What a file read gives once it comes down to `plan`, the requests made
/// from request `b` on of the final record `f`: its error, the inline
/// bytes, nothing, or what the planned device reads give.
pub open spec fn file_plan_outcome(
    plan: Result<FileReadView, ReadError>,
    f: Seq<DeviceRequest>,
    b: int,
    r: Result<Vec<u8>, ReadError>,
) -> bool {
    match plan {
        Err(e) => f.len() == b && r == Err::<Vec<u8>, ReadError>(e),
        Ok(FileReadView::Empty) => f.len() == b && (r matches Ok(v) && v@.len() == 0),
        Ok(FileReadView::Inline(d)) => f.len() == b && (r matches Ok(v) && v@ == d),
        Ok(FileReadView::Extents(p)) => {
            let m = planned_reads_made(f, b, p);
            &&& m <= p.len()
            &&& followed_by_reads(f.subrange(0, b), f, read_places(p.take(m as int)))
            &&& match planned_reads_result(f, b, p) {
                Ok(bs) => r matches Ok(v) && v@ == bs,
                Err(e) => r == Err::<Vec<u8>, ReadError>(ReadError::Device(e)),
            }
        },
    }
}

/// What a read of `size` bytes from `offset` of a file gives when the device
/// answered `answer` to the read of its inode, with `f` the final record and
/// `b` the number of requests up to the inode read: the device's error; a
/// checksum error on version 5; the inode's decoding error; or what the read
/// comes down to for the decoded inode and the data fork that follows its
/// core (see [`file_read_plan`]).
pub open spec fn file_data_outcome(
    sb: Superblock,
    answer: Result<Seq<u8>, DeviceError>,
    f: Seq<DeviceRequest>,
    b: int,
    offset: u64,
    size: u32,
    r: Result<Vec<u8>, ReadError>,
) -> bool {
    match answer {
        Err(e) => f.len() == b && r == Err::<Vec<u8>, ReadError>(ReadError::Device(e)),
        Ok(raw) => {
            &&& raw.len() == sb.inode_size
            &&& if sb.version == XFS_SB_VERSION_5 && !xfs_crc_ok(raw, XFS_DINODE_CRC_OFF as int) {
                f.len() == b && r == Err::<Vec<u8>, ReadError>(
                    ReadError::Parse(ParseError::CrcMismatch { what: "inode" }),
                )
            } else {
                match inode_error(raw) {
                    Some(e) => f.len() == b && r == Err::<Vec<u8>, ReadError>(ReadError::Parse(e)),
                    None => exists|n: Inode|
                        #[trigger] inode_decodes_to(raw, n) && file_plan_outcome(
                            file_read_plan(
                                sb,
                                n,
                                raw.subrange(XFS_DINODE_SIZE_V3 as int, raw.len() as int),
                                offset,
                                size,
                            ),
                            f,
                            b,
                            r,
                        ),
                }
            }
        },
    }
}

/// `v` is what a read of `size` bytes from `offset` of file `ino` gave: some
/// inode core `n` was read for `ino` (see [`inode_read_from`]) into a buffer
/// `s` of `inode_size` bytes, and `v` is an outcome of the read of `n` with
/// the data fork that follows the core in `s`.
#[verifier::opaque]
pub open spec fn is_file_read_of(sb: Superblock, ino: u64, offset: u64, size: u32, v: Seq<u8>) -> bool {
    exists|s: Seq<u8>, n: Inode|
        {
            &&& s.len() == sb.inode_size
            &&& #[trigger] inode_read_from(sb, ino, s, n)
            &&& file_read_outcome(
                sb,
                n,
                s.subrange(XFS_DINODE_SIZE_V3 as int, s.len() as int),
                offset,
                size,
                v,
            )
        }
}

/// Reads `size` bytes from `offset` of the regular file or symbolic link
/// `ino`, stopping at the end of the file. Inline data is taken from the
/// inode; data in extents is read from the device with the reads that
/// [`plan_extent_reads`] plans. Other inodes read as empty.
///
/// It first reads the inode at [`inode_location`]; what follows is stated by
/// [`file_data_outcome`]: the decision of [`file_read_of_inode`] on the
/// decoded inode, and for extents the planned reads, in order, up to the
/// first refused, whose bytes are returned one after the other.
///
/// # Errors
///
/// * `Device(OutOfRange)` - the inode number, or an extent, names no place on
///   the device.
/// * `Parse(InvalidField)` - inline data runs past the inode.
/// * `Parse(BufferTooSmall)` - the extent records run past the inode.
/// * [`ReadError`] - what the device or the decoding reports.
pub fn read_file_data<D: BlockDevice>(
    dev: &mut D,
    sb: &Superblock,
    ino_num: u64,
    offset: u64,
    size: u32,
) -> (r: Result<Vec<u8>, ReadError>)
    ensures
        inode_location(*sb, ino_num) is None ==> r == Err::<Vec<u8>, ReadError>(
            ReadError::Device(DeviceError::OutOfRange),
        ) && *final(dev) == *old(dev),
        r matches Ok(v) ==> is_file_read_of(*sb, ino_num, offset, size, v@),
        match inode_location(*sb, ino_num) {
            None => true,
            Some(loc) => {
                let o = old(dev).requests();
                let f = final(dev).requests();
                &&& f.len() > o.len()
                &&& followed_by_reads(
                    o,
                    f.subrange(0, (o.len() + 1) as int),
                    seq![(loc as u64, sb.inode_size as nat)],
                )
                &&& file_data_outcome(*sb, read_answer(f, o.len() as int), f, (o.len() + 1) as int, offset, size, r)
            },
        },
{
    let inosz = sb.inode_size as usize;
    let mut scratch = vec![0u8; inosz];
    let ghost o = old(dev).requests();
    let ir = read_inode(dev, sb, ino_num, scratch.as_mut_slice());
    let ghost f1 = dev.requests();
    let ghost s = scratch@;
    proof {
        assert(f1.subrange(0, f1.len() as int) =~= f1);
    }
    let inode = match ir {
        Ok(n) => n,
        Err(e) => {
            return Err(e);
        },
    };
    let ghost raw = read_answer(f1, o.len() as int)->Ok_0;
    proof {
        assert(s =~= s.subrange(0, sb.inode_size as int));
        assert(inode_decodes_to(raw, inode));
    }
    let fork = &scratch.as_slice()[XFS_DINODE_SIZE_V3..inosz];
    proof {
        assert(fork@ =~= raw.subrange(XFS_DINODE_SIZE_V3 as int, raw.len() as int));
    }
    let plan = match file_read_of_inode(sb, &inode, fork, offset, size) {
        Ok(p) => p,
        Err(e) => {
            return Err(e);
        },
    };
    let r: Result<Vec<u8>, ReadError> = match plan {
        FileRead::Empty => Ok(Vec::new()),
        FileRead::Inline(v) => Ok(v),
        FileRead::Extents(p) => read_planned(dev, &p),
    };
    proof {
        let f = dev.requests();
        lemma_prefix_answers(f1, f);
        assert(f.subrange(0, f1.len() as int) == f1);
        if r is Ok {
            assert(is_file_read_of(*sb, ino_num, offset, size, r->Ok_0@)) by {
                reveal(is_file_read_of);
                assert(inode_read_from(*sb, ino_num, s, inode));
            }
        }
    }
    r
}

/// The reads `seq![x] + r` fetch what `x` fetches and then what `r` does.
proof fn lemma_planned_len_prepend(x: (u64, u64), r: Seq<(u64, u64)>)
    ensures
        planned_len(seq![x] + r) == x.1 + planned_len(r),
    decreases r.len(),
{
    let s = seq![x] + r;
    if r.len() == 0 {
        assert(s.drop_last() =~= Seq::<(u64, u64)>::empty());
        assert(planned_len(s.drop_last()) == 0);
        assert(s.last() == x);
    } else {
        assert(s.drop_last() =~= seq![x] + r.drop_last());
        assert(s.last() == r.last());
        lemma_planned_len_prepend(x, r.drop_last());
        assert(planned_len(r) == planned_len(r.drop_last()) + r.last().1);
    }
    assert(planned_len(s) == planned_len(s.drop_last()) + s.last().1);
}

/// The reads planned for at most `remaining` bytes fetch at most that many.
proof fn lemma_extent_reads_bounded(sb: Superblock, exts: Seq<BmapExtent>, cur: int, remaining: int)
    requires
        remaining >= 0,
    ensures
        extent_reads(sb, exts, cur, remaining) matches Some(p) ==> planned_len(p) <= remaining,
    decreases exts.len(),
{
    if exts.len() > 0 {
        let e = exts[0];
        let start = e.startoff * sb.block_size;
        let len = e.blockcount * sb.block_size;
        if start <= cur < start + len {
            let in_ext = cur - start;
            let t = min_int(len - in_ext, remaining);
            lemma_extent_reads_bounded(sb, exts.drop_first(), cur + t, remaining - t);
            if let Some(loc) = extent_location(sb, e) {
                let x = ((loc + in_ext) as u64, t as u64);
                let rest = if remaining - t == 0 {
                    Some(Seq::<(u64, u64)>::empty())
                } else {
                    extent_reads(sb, exts.drop_first(), cur + t, remaining - t)
                };
                if let Some(r) = rest {
                    lemma_planned_len_prepend(x, r);
                    if remaining - t == 0 {
                        assert(planned_len(r) == 0);
                    }
                }
            }
        } else {
            lemma_extent_reads_bounded(sb, exts.drop_first(), cur, remaining);
        }
    }
}

/// A read of a file gives no more bytes than were asked for, and none past
/// the end of the file: at most `size` bytes, at most the `file_size - offset`
/// bytes left from `offset`, and nothing from the end of the file on.
pub proof fn lemma_file_read_within_bounds(
    sb: Superblock,
    n: Inode,
    fork: Seq<u8>,
    offset: u64,
    size: u32,
    v: Seq<u8>,
)
    requires
        file_read_outcome(sb, n, fork, offset, size, v),
    ensures
        v.len() <= size,
        offset < n.size as u64 ==> v.len() <= n.size as u64 - offset,
        offset >= n.size as u64 ==> v.len() == 0,
{
    let file_size = n.size as u64 as int;
    let t = n.mode & 0xf000;
    if (t == 0x8000 || t == 0xa000) && n.format == InodeFormat::Extents && offset < file_size {
        lemma_extent_reads_bounded(
            sb,
            extent_list(fork, n.nextents as nat),
            offset as int,
            min_int(size as int, file_size - offset),
        );
    }
}

/// What [`read_file_data`] gives is never more than was asked for.
pub proof fn lemma_file_read_at_most_size(sb: Superblock, ino: u64, offset: u64, size: u32, v: Seq<u8>)
    requires
        is_file_read_of(sb, ino, offset, size, v),
    ensures
        v.len() <= size,
{
    reveal(is_file_read_of);
    let (s, n) = choose|s: Seq<u8>, n: Inode|
        {
            &&& s.len() == sb.inode_size
            &&& #[trigger] inode_read_from(sb, ino, s, n)
            &&& file_read_outcome(
                sb,
                n,
                s.subrange(XFS_DINODE_SIZE_V3 as int, s.len() as int),
                offset,
                size,
                v,
            )
        };
    lemma_file_read_within_bounds(
        sb,
        n,
        s.subrange(XFS_DINODE_SIZE_V3 as int, s.len() as int),
        offset,
        size,
        v,
    );
}

/// The short-form entries, when they decode, are as many as were asked for.
proof fn lemma_sf_entries_len(data: Seq<u8>, pos: int, n: nat, i8count: u8, has_ftype: bool)
    ensures
        sf_entries(data, pos, n, i8count, has_ftype) matches Ok(es) ==> es.len() == n,
    decreases n,
{
    if n > 0 {
        let b = data.subrange(pos, data.len() as int);
        lemma_sf_entries_len(
            data,
            pos + dir_entry_len(b, i8count, has_ftype),
            (n - 1) as nat,
            i8count,
            has_ftype,
        );
    }
}

/// Only directories have listings. Every listing starts with "." naming the
/// directory itself and "..", both directories; in a short-form directory
/// ".." names the parent stored after the two counts of the header (4 bytes,
/// or 8 when there are 8-byte inode numbers), and exactly as many entries as
/// the header counts follow.
pub proof fn lemma_listing_shape(
    ino: u64,
    n: Inode,
    data: Seq<u8>,
    has_ftype: bool,
    v: Seq<(u64, Seq<char>, u8)>,
)
    requires
        dir_listing(ino, n, data, has_ftype) == Ok::<Seq<(u64, Seq<char>, u8)>, ReadError>(v),
    ensures
        n.mode & 0xf000 == 0x4000,
        v.len() >= 2,
        v[0] == (ino, seq!['.'], XFS_DIR3_FT_DIR),
        v[1].1 == seq!['.', '.'] && v[1].2 == XFS_DIR3_FT_DIR,
        n.format == InodeFormat::Local ==> v.len() == 2 + data[0] && v[1].0 == dir_header_parent(data),
        n.format == InodeFormat::Local ==> v[1].0 == if data[1] == 0 {
            be32(data, 2) as u64
        } else {
            be64(data, 2)
        },
        n.format != InodeFormat::Local ==> v.len() == 2 && v[1].0 == ino,
{
    if n.format == InodeFormat::Local {
        lemma_sf_entries_len(data, dir_header_len(data), data[0] as nat, data[1], has_ftype);
    }
}

/// When the device answers the first read of `read_superblock` with bytes
/// that decode to a superblock `e` of version 5 whose sector size the reader
/// accepts, and the sector read, if made, with a sector `sec` whose checksum
/// verifies, `read_superblock` returns `e`.
pub proof fn lemma_superblock_read_of(
    f: Seq<DeviceRequest>,
    b: int,
    r: Result<Superblock, ReadError>,
    e: Superblock,
    sec: Seq<u8>,
)
    requires
        superblock_read_outcome(f, b, r),
        read_answer(f, b) matches Ok(raw) && superblock_error(raw) is None && superblock_decodes_to(raw, e),
        e.version == XFS_SB_VERSION_5,
        e.sector_size <= XFS_MAX_SECTOR_SIZE,
        xfs_crc_ok(sec, XFS_SB_CRC_OFF as int),
        f.len() > b + 1 ==> read_answer(f, b + 1) == Ok::<Seq<u8>, DeviceError>(sec),
    ensures
        r == Ok::<Superblock, ReadError>(e),
{
    reveal(superblock_read_outcome);
    let raw = read_answer(f, b)->Ok_0;
    let x = choose|x: Superblock|
        #[trigger] superblock_decodes_to(raw, x) && if x.version != XFS_SB_VERSION_5 {
            f.len() == b + 1 && r == Ok::<Superblock, ReadError>(x)
        } else if x.sector_size > XFS_MAX_SECTOR_SIZE {
            f.len() == b + 1 && r == Err::<Superblock, ReadError>(
                ReadError::Parse(
                    ParseError::InvalidField { field: "sector_size", value: x.sector_size as u64 },
                ),
            )
        } else {
            &&& f.len() == b + 2
            &&& read_at_place(f, b + 1, 0, x.sector_size as nat)
            &&& match read_answer(f, b + 1) {
                Err(e) => r == Err::<Superblock, ReadError>(ReadError::Device(e)),
                Ok(sec) => if xfs_crc_ok(sec, XFS_SB_CRC_OFF as int) {
                    r == Ok::<Superblock, ReadError>(x)
                } else {
                    r == Err::<Superblock, ReadError>(
                        ReadError::Parse(ParseError::CrcMismatch { what: "superblock" }),
                    )
                },
            }
        };
    lemma_superblock_decode_unique(raw, x, e);
}

/// When the device answers the first read of `read_agf` with bytes that
/// decode to an AGF `e` and, on version 5, the sector read, if made, with a
/// sector `sec` whose checksum verifies, `read_agf` returns `e`.
pub proof fn lemma_agf_read_of(
    sb: Superblock,
    off: u64,
    f: Seq<DeviceRequest>,
    b: int,
    r: Result<Agf, ReadError>,
    e: Agf,
    sec: Seq<u8>,
)
    requires
        agf_read_outcome(sb, off, f, b, r),
        read_answer(f, b) matches Ok(raw) && agf_error(raw) is None && agf_decodes_to(raw, e),
        sb.sector_size <= XFS_MAX_SECTOR_SIZE,
        xfs_crc_ok(sec, XFS_AGF_CRC_OFF as int),
        f.len() > b + 1 ==> read_answer(f, b + 1) == Ok::<Seq<u8>, DeviceError>(sec),
    ensures
        r == Ok::<Agf, ReadError>(e),
{
    reveal(agf_read_outcome);
    let raw = read_answer(f, b)->Ok_0;
    if let Ok(a) = r {
        lemma_agf_decode_unique(raw, a, e);
    }
}

/// When the device answers the read of `read_agfl` with a sector that, on
/// version 5, verifies and decodes to the AGFL header `e`, `read_agfl`
/// returns `e`.
pub proof fn lemma_agfl_read_of(
    sb: Superblock,
    off: u64,
    f: Seq<DeviceRequest>,
    b: int,
    r: Result<Agfl, ReadError>,
    e: Agfl,
)
    requires
        agfl_read_outcome(sb, off, f, b, r),
        read_answer(f, b) matches Ok(sec) && (sb.version == XFS_SB_VERSION_5 ==> xfs_crc_ok(
            sec,
            XFS_AGFL_CRC_OFF as int,
        )) && agfl_error(sec, sb.sector_size) is None && agfl_decodes_to(
            sec,
            sb.sector_size,
            sb.version == XFS_SB_VERSION_5,
            e,
        ),
    ensures
        r == Ok::<Agfl, ReadError>(e),
{
    reveal(agfl_read_outcome);
    let sec = read_answer(f, b)->Ok_0;
    if let Ok(a) = r {
        lemma_agfl_decode_unique(sec, sb.sector_size, sb.version == XFS_SB_VERSION_5, a, e);
    }
}

/// A symbolic link is read like a regular file: two inodes that differ only
/// in their mode, each a regular file or a symbolic link, give the same read
/// of the same data fork.
pub proof fn lemma_file_read_same_for_links(
    sb: Superblock,
    n1: Inode,
    n2: Inode,
    fork: Seq<u8>,
    offset: u64,
    size: u32,
)
    requires
        n1.mode & 0xf000 == 0x8000 || n1.mode & 0xf000 == 0xa000,
        n2.mode & 0xf000 == 0x8000 || n2.mode & 0xf000 == 0xa000,
        n2 == (Inode { mode: n2.mode, ..n1 }),
    ensures
        file_read_plan(sb, n1, fork, offset, size) == file_read_plan(sb, n2, fork, offset, size),
{
}

/// A regular file or symbolic link whose data lies in its inode reads as the
/// bytes of its data fork from `offset`: at most `size` of them, none past the
/// file's size, and none at all from the end of the file on.
pub proof fn lemma_inline_read(sb: Superblock, n: Inode, fork: Seq<u8>, offset: u64, size: u32)
    requires
        n.mode & 0xf000 == 0x8000 || n.mode & 0xf000 == 0xa000,
        n.format == InodeFormat::Local,
        min_int(offset + size, n.size as u64 as int) <= fork.len(),
    ensures
        file_read_plan(sb, n, fork, offset, size) == Ok::<FileReadView, ReadError>(
            FileReadView::Inline(
                if offset < n.size as u64 {
                    fork.subrange(offset as int, min_int(offset + size, n.size as u64 as int))
                } else {
                    Seq::empty()
                },
            ),
        ),
{
}

/// The inode numbered from group `agno`, block `agbno` of the group and slot
/// `idx` of the block lies `agno` groups of `ag_blocks` blocks, plus `agbno`
/// blocks, plus `idx` inodes from the start of the device.
pub proof fn lemma_inode_location_of_parts(sb: Superblock, agno: u32, agbno: u64, idx: u64)
    requires
        sb.agblklog + sb.inopblog < 64,
        agno < sb.ag_count,
        agbno < pow2(sb.agblklog as nat),
        idx < pow2(sb.inopblog as nat),
        agno * pow2((sb.agblklog + sb.inopblog) as nat) + agbno * pow2(sb.inopblog as nat) + idx
            <= u64::MAX,
        agno * sb.ag_blocks * sb.block_size + agbno * sb.block_size + idx * sb.inode_size
            <= u64::MAX,
    ensures
        inode_location(
            sb,
            (agno * pow2((sb.agblklog + sb.inopblog) as nat) + agbno * pow2(sb.inopblog as nat)
                + idx) as u64,
        ) == Some(agno * sb.ag_blocks * sb.block_size + agbno * sb.block_size + idx * sb.inode_size),
{
    let a = sb.agblklog as nat;
    let p = sb.inopblog as nat;
    let big_a = pow2(a) as int;
    let big_p = pow2(p) as int;
    let ino_int = agno * pow2(a + p) + agbno * big_p + idx;
    lemma_pow2_adds(a, p);
    lemma_pow2_pos(a);
    lemma_pow2_pos(p);
    assert((sb.agblklog + sb.inopblog) as nat == a + p);
    let q = agno * big_a + agbno;
    assert(ino_int == q * big_p + idx) by (nonlinear_arith)
        requires
            ino_int == agno * pow2(a + p) + agbno * big_p + idx,
            pow2(a + p) == big_a * big_p,
            q == agno * big_a + agbno,
    ;
    lemma_fundamental_div_mod_converse_div(ino_int, big_p, q, idx as int);
    lemma_fundamental_div_mod_converse_mod(ino_int, big_p, q, idx as int);
    lemma_fundamental_div_mod_converse_div(q, big_a, agno as int, agbno as int);
    lemma_fundamental_div_mod_converse_mod(q, big_a, agno as int, agbno as int);
    let low = agbno * big_p + idx;
    assert(0 <= low < big_a * big_p) by (nonlinear_arith)
        requires
            low == agbno * big_p + idx,
            0 <= agbno < big_a,
            0 <= idx < big_p,
    ;
    assert(ino_int == agno * (big_a * big_p) + low);
    lemma_fundamental_div_mod_converse_div(ino_int, big_a * big_p, agno as int, low);
    let ino = ino_int as u64;
    assert(ino as int == ino_int);
    assert((agno as int) % 0x1_0000_0000 == agno);
    assert(0 <= agno * sb.ag_blocks * sb.block_size && 0 <= agbno * sb.block_size && 0 <= idx
        * sb.inode_size) by (nonlinear_arith)
        requires
            0 <= agno,
            0 <= sb.ag_blocks,
            0 <= sb.block_size,
            0 <= agbno,
            0 <= idx,
            0 <= sb.inode_size,
    ;
    lemma_ag_start_product(sb, agno as int);
}

/// The first entry of a short-form directory is read from the bytes after the
/// header: the name length `l`, two bytes of offset and the `l` bytes of the
/// name; then, where the filesystem records file types, the file type byte;
/// then the inode number, 4 bytes or, in a directory with 8-byte inode
/// numbers, 8. Without recorded file types the file type is 0 and the inode
/// number follows the name directly.
pub proof fn lemma_first_dir_entry(
    ino: u64,
    n: Inode,
    data: Seq<u8>,
    has_ftype: bool,
    v: Seq<(u64, Seq<char>, u8)>,
)
    requires
        dir_listing(ino, n, data, has_ftype) == Ok::<Seq<(u64, Seq<char>, u8)>, ReadError>(v),
        n.format == InodeFormat::Local,
        data[0] >= 1,
    ensures
        ({
            let h: int = if data[1] == 0 {
                6
            } else {
                10
            };
            let l = data[h] as int;
            let at: int = if has_ftype {
                h + 4 + l
            } else {
                h + 3 + l
            };
            &&& v[2].0 == if data[1] == 0 {
                be32(data, at) as u64
            } else {
                be64(data, at)
            }
            &&& v[2].1 == utf8_lossy(data.subrange(h + 3, h + 3 + l))
            &&& v[2].2 == if has_ftype {
                data[h + 3 + l]
            } else {
                0u8
            }
        }),
{
    let h = dir_header_len(data);
    let b = data.subrange(h, data.len() as int);
    let l = b[0] as int;
    let at = dir_entry_ino_off(b, has_ftype);
    assert(b.subrange(3, 3 + l) =~= data.subrange(h + 3, h + 3 + l));
    assert(b.subrange(at, at + 4) =~= data.subrange(h + at, h + at + 4));
    if data[1] != 0 {
        assert(b.subrange(at, at + 8) =~= data.subrange(h + at, h + at + 8));
    }
}

/// Without saturation, allocation group `agno` starts `agno` groups of
/// `ag_blocks` blocks of `block_size` bytes into the device.
proof fn lemma_ag_start_product(sb: Superblock, agno: int)
    requires
        0 <= agno,
        agno * sb.ag_blocks * sb.block_size <= u64::MAX,
    ensures
        ag_start_of(sb, agno) == agno * sb.ag_blocks * sb.block_size,
{
    let ag = sb.ag_blocks as int;
    let bs = sb.block_size as int;
    let s1 = sat_mul(agno, ag);
    assert(0 <= agno * ag) by (nonlinear_arith)
        requires
            0 <= agno,
            0 <= ag,
    ;
    if bs == 0 {
        assert(s1 * bs == 0 && agno * ag * bs == 0) by (nonlinear_arith)
            requires
                bs == 0,
        ;
        assert(sat_mul(s1, bs) == 0);
    } else {
        assert(agno * ag <= agno * ag * bs) by (nonlinear_arith)
            requires
                bs >= 1,
                0 <= agno,
                0 <= ag,
        ;
        assert(s1 == agno * ag);
        assert(sat_mul(s1, bs) == agno * ag * bs);
    }
}

/// Block `block` and sector `n` of an existing allocation group `agno` lie
/// `agno` groups of `ag_blocks` blocks into the device, plus `block` blocks,
/// or plus `n` sectors.
pub proof fn lemma_ag_places(sb: Superblock, agno: u32, block: u32, n: int)
    requires
        agno < sb.ag_count,
        0 <= n,
        agno * sb.ag_blocks * sb.block_size + block * sb.block_size <= u64::MAX,
        agno * sb.ag_blocks * sb.block_size + n * sb.sector_size <= u64::MAX,
    ensures
        ag_block_place(sb, agno, block) == Some(
            (agno * sb.ag_blocks * sb.block_size + block * sb.block_size) as u64,
        ),
        ag_sector_place(sb, agno, n) == Some(
            (agno * sb.ag_blocks * sb.block_size + n * sb.sector_size) as u64,
        ),
{
    assert(0 <= block * sb.block_size && 0 <= n * sb.sector_size) by (nonlinear_arith)
        requires
            0 <= n,
            0 <= block,
            0 <= sb.block_size,
            0 <= sb.sector_size,
    ;
    lemma_ag_start_product(sb, agno as int);
}

/// The extent that starts at block `agblk` of allocation group `agno` lies
/// `agno` groups of `ag_blocks` blocks, plus `agblk` blocks, into the device.
pub proof fn lemma_extent_location_of_parts(sb: Superblock, e: BmapExtent, agno: u64, agblk: u64)
    requires
        sb.agblklog < 64,
        agblk < pow2(sb.agblklog as nat),
        e.startblock == agno * pow2(sb.agblklog as nat) + agblk,
        (agno * sb.ag_blocks + agblk) * sb.block_size <= u64::MAX,
        agno * sb.ag_blocks + agblk <= u64::MAX,
    ensures
        extent_location(sb, e) == Some(((agno * sb.ag_blocks + agblk) * sb.block_size) as u64),
{
    let big_a = pow2(sb.agblklog as nat) as int;
    lemma_pow2_pos(sb.agblklog as nat);
    lemma_fundamental_div_mod_converse_div(e.startblock as int, big_a, agno as int, agblk as int);
    lemma_fundamental_div_mod_converse_mod(e.startblock as int, big_a, agno as int, agblk as int);
}

/// A regular file or symbolic link held in one extent, which starts at file
/// block `startoff` and lies at device offset `loc`, is read with one device
/// read: from `loc` plus the distance of `offset` from the extent's first
/// byte, `size` bytes, when those bytes lie inside both the file and the
/// extent.
pub proof fn lemma_one_extent_read(
    sb: Superblock,
    n: Inode,
    fork: Seq<u8>,
    offset: u64,
    size: u32,
    e: BmapExtent,
    loc: u64,
)
    requires
        n.mode & 0xf000 == 0x8000 || n.mode & 0xf000 == 0xa000,
        n.format == InodeFormat::Extents,
        n.nextents == 1,
        fork.len() >= XFS_BMBT_REC_SIZE,
        bmap_decodes_to(fork, e),
        extent_location(sb, e) == Some(loc),
        0 < size,
        e.startoff * sb.block_size <= offset,
        offset + size <= n.size as u64,
        offset + size <= (e.startoff + e.blockcount) * sb.block_size,
        loc + offset - e.startoff * sb.block_size <= u64::MAX,
    ensures
        file_read_plan(sb, n, fork, offset, size) == Ok::<FileReadView, ReadError>(
            FileReadView::Extents(
                seq![((loc + offset - e.startoff * sb.block_size) as u64, size as u64)],
            ),
        ),
{
    let exts = extent_list(fork, 1);
    assert(fork.subrange(0, fork.len() as int) =~= fork);
    assert(exts[0] == e);
    assert(exts.drop_first().len() == 0);
    let bs = sb.block_size as int;
    assert((e.startoff + e.blockcount) * bs == e.startoff * bs + e.blockcount * bs) by (nonlinear_arith);
    let start = e.startoff * bs;
    let in_ext = offset - start;
    let reads = seq![((loc + in_ext) as u64, size as u64)];
    assert(reads + Seq::<(u64, u64)>::empty() =~= reads);
    assert(extent_reads(sb, exts, offset as int, size as int) == Some(reads));
}

} // verus!
