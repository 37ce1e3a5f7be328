//! Making a new filesystem: the structures `mkfs` lays out in each
//! allocation group, the sectors and blocks they are written as, and the
//! writing itself.
use crate::crc::{with_xfs_crc, write_xfs_crc};
use crate::device::{BlockDevice, DeviceRequest};
use crate::endian::zeros;
use crate::error::{DeviceError, ParseError, WriteError};
use crate::on_disk::agf::{agf_image, Agf, XFS_AGF_CRC_OFF, XFS_AGF_SIZE};
use crate::on_disk::agfl::{agfl_image, Agfl, XFS_AGFL_CRC_OFF, XFS_AGFL_HEADER_SIZE};
use crate::on_disk::agi::{agi_image, Agi, XFS_AGI_CRC_OFF, XFS_AGI_SIZE};
use crate::on_disk::inobt::{
    inobt_image, InodeBtreeKind, InodeBtreeRoot, XFS_BTREE_SBLOCK_CRC_OFF, XFS_FIBT_CRC_MAGIC,
    XFS_IBT_CRC_MAGIC,
};
use crate::on_disk::inode::{
    inode_image, Inode, InodeFormat, XFS_DINODE_CRC_OFF, XFS_DINODE_MAGIC, XFS_DINODE_SIZE_V3,
};
use crate::on_disk::superblock::{
    superblock_image, Superblock, V5Fields, XFS_DSB_SIZE, XFS_SB_CRC_OFF, XFS_SB_VERSION_5,
};
use vstd::arithmetic::power2::{
    lemma2_to64, lemma2_to64_rest, lemma_pow2_adds, lemma_pow2_strictly_increases, lemma_pow2_unfold,
    pow2,
};
use vstd::array::spec_array_fill_for_copy_type;
use vstd::bits::lemma_u64_shl_is_mul;
use vstd::prelude::*;
use vstd::slice::slice_to_vec;

verus! {

/// What `mkfs` is asked to make.
#[derive(Debug, Clone, Copy)]
pub struct MkfsOptions {
    pub block_size: u32,
    pub sector_size: u16,
    pub ag_blocks: u32,
    pub total_blocks: u64,
    pub uuid: [u8; 16],
}

// ---------------------------------------------------------------- logarithms

/// The base-2 logarithm of `n`, rounded down; 0 for 0 and 1.
pub open spec fn floor_log2(n: nat) -> nat
    decreases n,
{
    if n <= 1 {
        0
    } else {
        1 + floor_log2(n / 2)
    }
}

/// The base-2 logarithm of `n`, rounded up; 0 for 0 and 1.
pub open spec fn ceil_log2(n: nat) -> nat {
    if n <= 1 {
        0
    } else {
        floor_log2((n - 1) as nat) + 1
    }
}

pub(crate) proof fn lemma_floor_log2_below(n: nat, k: nat)
    requires
        1 <= k,
        n < pow2(k),
    ensures
        floor_log2(n) < k,
    decreases n,
{
    if n > 1 {
        lemma_pow2_unfold(k);
        if k == 1 {
            lemma2_to64();
        } else {
            lemma_floor_log2_below(n / 2, (k - 1) as nat);
        }
    }
}

proof fn lemma_floor_log2_bound(n: nat)
    requires
        n <= u64::MAX,
    ensures
        floor_log2(n) < 64,
{
    lemma2_to64_rest();
    lemma_floor_log2_below(n, 64);
}

/// The base-2 logarithm of `n`, rounded down; 0 for 0 and 1.
fn ilog2(n: u64) -> (r: u8)
    ensures
        r == floor_log2(n as nat),
{
    let mut m = n;
    let mut k: u8 = 0;
    proof {
        lemma_floor_log2_bound(n as nat);
    }
    while m > 1
        invariant
            floor_log2(n as nat) == k + floor_log2(m as nat),
            floor_log2(n as nat) < 64,
        decreases m,
    {
        m = m / 2;
        k = k + 1;
    }
    k
}

/// The base-2 logarithm of `n`, rounded up; 0 for 0 and 1.
fn ceil_ilog2(n: u64) -> (r: u8)
    ensures
        r == ceil_log2(n as nat),
{
    if n <= 1 {
        0
    } else {
        proof {
            lemma_floor_log2_bound((n - 1) as nat);
        }
        ilog2(n - 1) + 1
    }
}

/// `floor_log2(n)` is the exponent of the largest power of two not above `n`.
pub proof fn lemma_floor_log2_bounds(n: nat)
    requires
        n >= 1,
    ensures
        pow2(floor_log2(n)) <= n < pow2(floor_log2(n) + 1),
    decreases n,
{
    lemma2_to64();
    if n > 1 {
        let g = floor_log2(n / 2);
        lemma_floor_log2_bounds(n / 2);
        lemma_pow2_unfold(g + 1);
        lemma_pow2_unfold(g + 2);
        assert(floor_log2(n) == g + 1);
        assert((g + 1) + 1 == g + 2);
    }
}

/// `ceil_log2(n)` is the exponent of the smallest power of two not below `n`.
pub proof fn lemma_ceil_log2_bounds(n: nat)
    ensures
        n <= pow2(ceil_log2(n)),
        n > 1 ==> pow2((ceil_log2(n) - 1) as nat) < n,
{
    lemma2_to64();
    if n > 1 {
        lemma_floor_log2_bounds((n - 1) as nat);
        assert((ceil_log2(n) - 1) as nat == floor_log2((n - 1) as nat));
    }
}

// ---------------------------------------------------------------- the layout

/// The options that `mkfs` accepts: allocation groups of at least 10 blocks
/// (their first blocks hold the headers and tree roots), at least 10 blocks
/// in all, blocks of 512 to 4096 bytes, sectors of at most 4096 bytes, and a
/// last allocation group whose headers lie below 2^64 bytes.
pub open spec fn mkfs_options_ok(opts: MkfsOptions) -> bool {
    &&& opts.ag_blocks >= 10
    &&& opts.total_blocks >= 10
    &&& 512 <= opts.block_size <= 4096
    &&& opts.sector_size <= 4096
    &&& mkfs_ag_count(opts) == 0 || (mkfs_ag_count(opts) - 1) * opts.ag_blocks * opts.block_size
        + 8 * opts.block_size + 3 * opts.sector_size <= u64::MAX
}

/// The number of allocation groups: enough groups of `ag_blocks` blocks to
/// hold `total_blocks` blocks, taken modulo 2^32.
pub open spec fn mkfs_ag_count(opts: MkfsOptions) -> u32 {
    ((opts.total_blocks + opts.ag_blocks - 1) / (opts.ag_blocks as int)) as u32
}

/// The groups that `mkfs` lays out hold all the blocks asked for, and none of
/// them is superfluous: `ag_count` groups hold at least `total_blocks` blocks,
/// one group fewer would not. Holds when the count fits in 32 bits.
pub proof fn lemma_mkfs_groups_cover(opts: MkfsOptions)
    requires
        opts.ag_blocks > 0,
        opts.total_blocks > 0,
        (opts.total_blocks + opts.ag_blocks - 1) / (opts.ag_blocks as int) < 0x1_0000_0000,
    ensures
        mkfs_ag_count(opts) * opts.ag_blocks >= opts.total_blocks,
        (mkfs_ag_count(opts) - 1) * opts.ag_blocks < opts.total_blocks,
{
    let t = opts.total_blocks as int;
    let a = opts.ag_blocks as int;
    let c = (t + a - 1) / a;
    assert(c * a >= t && (c - 1) * a < t) by (nonlinear_arith)
        requires
            a > 0,
            t > 0,
            c == (t + a - 1) / a,
    ;
}

/// The base-2 logarithm of the number of inodes per block (inodes are 512
/// bytes).
pub open spec fn mkfs_inopblog(opts: MkfsOptions) -> u8 {
    (floor_log2(opts.block_size as nat) - 9) as u8
}

/// The root directory's inode: the first inode of the ninth block of group 0.
pub open spec fn mkfs_rootino(opts: MkfsOptions) -> u64 {
    (8 * pow2(mkfs_inopblog(opts) as nat)) as u64
}

/// The superblock that `mkfs` writes at the start of every allocation group.
pub open spec fn mkfs_superblock_of(opts: MkfsOptions) -> Superblock {
    Superblock {
        block_size: opts.block_size,
        dblocks: opts.total_blocks,
        rblocks: 0,
        rextents: 0,
        uuid: opts.uuid,
        logstart: 0,
        rootino: mkfs_rootino(opts),
        rbmino: 0,
        rsumino: 0,
        rextsize: 0,
        ag_blocks: opts.ag_blocks,
        ag_count: mkfs_ag_count(opts),
        rbm_blocks: 0,
        log_blocks: 0,
        version: XFS_SB_VERSION_5,
        sector_size: opts.sector_size,
        inode_size: 512,
        inode_per_block: (opts.block_size / 512) as u16,
        fname: spec_array_fill_for_copy_type::<u8, 12>(0),
        block_log: floor_log2(opts.block_size as nat) as u8,
        sect_log: floor_log2(opts.sector_size as nat) as u8,
        inode_log: 9,
        inopblog: mkfs_inopblog(opts),
        agblklog: ceil_log2(opts.ag_blocks as nat) as u8,
        rextslog: 0,
        inprogress: false,
        imax_pct: 25,
        icount: 64,
        ifree: 63,
        fdblocks: (opts.total_blocks - 10) as u64,
        frextents: 0,
        uquotino: 0,
        gquotino: 0,
        qflags: 0,
        flags: 0,
        shared_vn: 0,
        inoalignmt: 0,
        unit: 0,
        width: 0,
        log_sector_size: opts.sector_size,
        log_sunit: 0,
        features2: 0,
        bad_features2: 0,
        v5: Some(
            V5Fields {
                features_compat: 0,
                features_ro_compat: 0,
                features_incompat: 0,
                features_log_incompat: 0,
                crc: 0,
                sparse_inode_align: 8,
                pquotino: 0,
                lsn: 0,
                meta_uuid: opts.uuid,
                metadirino: 0,
                rgcount: 0,
                rgextents: 0,
                rgblklog: 0,
                rtstart: 0,
                rtreserved: 0,
            },
        ),
    }
}

/// The superblock that `mkfs` writes describes the geometry it was asked
/// for: every block of an allocation group is numbered within `agblklog`
/// bits and no fewer bits would do; `block_log` is the base-2 logarithm of
/// the block size rounded down; `inopblog` bits number the 512-byte inodes
/// that fit in a block, `inode_per_block` of them.
pub proof fn lemma_mkfs_geometry(opts: MkfsOptions)
    requires
        mkfs_options_ok(opts),
    ensures
        opts.ag_blocks <= pow2(mkfs_superblock_of(opts).agblklog as nat),
        pow2((mkfs_superblock_of(opts).agblklog - 1) as nat) < opts.ag_blocks,
        pow2(mkfs_superblock_of(opts).block_log as nat) <= opts.block_size < pow2(
            mkfs_superblock_of(opts).block_log as nat + 1,
        ),
        pow2(mkfs_superblock_of(opts).inopblog as nat) * 512 <= opts.block_size < pow2(
            mkfs_superblock_of(opts).inopblog as nat + 1,
        ) * 512,
        mkfs_superblock_of(opts).inode_per_block == opts.block_size / 512,
{
    let sb = mkfs_superblock_of(opts);
    let ab = opts.ag_blocks as nat;
    let bs = opts.block_size as nat;
    lemma2_to64();
    lemma_floor_log2_bound((ab - 1) as nat);
    lemma_ceil_log2_bounds(ab);
    assert(sb.agblklog == ceil_log2(ab));
    let f = floor_log2(bs);
    lemma_floor_log2_bound(bs);
    lemma_floor_log2_bounds(bs);
    assert(sb.block_log == f);
    if f < 9 {
        lemma_pow2_strictly_increases(f + 1, 9);
        assert(false);
    }
    let k = (f - 9) as nat;
    assert(sb.inopblog == k);
    lemma_pow2_adds(k, 9);
    lemma_pow2_adds(k + 1, 9);
    assert(k + 9 == f && (k + 1) + 9 == f + 1);
}

/// Tells whether `mkfs` accepts the options `opts`.
pub fn mkfs_options_valid(opts: &MkfsOptions) -> (r: bool)
    ensures
        r == mkfs_options_ok(*opts),
{
    if opts.ag_blocks < 10 || opts.total_blocks < 10 || opts.block_size < 512 || opts.block_size > 4096
        || opts.sector_size > 4096 {
        return false;
    }
    let ab = opts.ag_blocks as u64;
    let q = opts.total_blocks / ab;
    assert(q < u64::MAX) by (nonlinear_arith)
        requires
            q == opts.total_blocks / ab,
            ab >= 10,
    ;
    let count = q + if opts.total_blocks % ab != 0 {
        1
    } else {
        0
    };
    assert(count == (opts.total_blocks + opts.ag_blocks - 1) / (opts.ag_blocks as int))
        by (nonlinear_arith)
        requires
            ab == opts.ag_blocks,
            ab > 0,
            q == opts.total_blocks / ab,
            count == q + if opts.total_blocks % ab != 0 {
                1int
            } else {
                0int
            },
    ;
    let count32 = #[verifier::truncate] (count as u32);
    if count32 == 0 {
        return true;
    }
    let c = (count32 - 1) as u128;
    let a = ab as u128;
    let b = opts.block_size as u128;
    assert(c * a <= 0xffff_ffff * 0xffff_ffff) by (nonlinear_arith)
        requires
            c <= 0xffff_ffff,
            a <= 0xffff_ffff,
    ;
    assert(c * a * b <= 0xffff_ffff * 0xffff_ffff * 4096) by (nonlinear_arith)
        requires
            c * a <= 0xffff_ffff * 0xffff_ffff,
            b <= 4096,
    ;
    let end = c * a * b + 8 * b + 3 * (opts.sector_size as u128);
    end <= u64::MAX as u128
}

/// Builds the superblock that `mkfs` writes.
pub fn mkfs_superblock(opts: &MkfsOptions) -> (sb: Superblock)
    requires
        mkfs_options_ok(*opts),
    ensures
        sb == mkfs_superblock_of(*opts),
{
    let ab = opts.ag_blocks as u64;
    let q = opts.total_blocks / ab;
    assert(q < u64::MAX) by (nonlinear_arith)
        requires
            q == opts.total_blocks / ab,
            ab >= 10,
    ;
    let ag_count = q + if opts.total_blocks % ab != 0 {
        1
    } else {
        0
    };
    assert(ag_count == (opts.total_blocks + opts.ag_blocks - 1) / (opts.ag_blocks as int))
        by (nonlinear_arith)
        requires
            ab == opts.ag_blocks,
            ab > 0,
            q == opts.total_blocks / ab,
            ag_count == q + if opts.total_blocks % ab != 0 {
                1int
            } else {
                0int
            },
    ;
    let block_log = ilog2(opts.block_size as u64);
    proof {
        assert(floor_log2(opts.block_size as nat) >= 9) by {
            reveal_with_fuel(floor_log2, 10);
        }
    }
    let inopblog = block_log - 9;
    proof {
        assert(floor_log2(opts.block_size as nat) <= 12) by {
            reveal_with_fuel(floor_log2, 14);
        }
        lemma2_to64();
        lemma_u64_shl_is_mul(8, inopblog as u64);
    }
    let rootino = 8u64 << (inopblog as u64);
    let ag_count32 = #[verifier::truncate] (ag_count as u32);
    Superblock {
        block_size: opts.block_size,
        dblocks: opts.total_blocks,
        rblocks: 0,
        rextents: 0,
        uuid: opts.uuid,
        logstart: 0,
        rootino,
        rbmino: 0,
        rsumino: 0,
        rextsize: 0,
        ag_blocks: opts.ag_blocks,
        ag_count: ag_count32,
        rbm_blocks: 0,
        log_blocks: 0,
        version: XFS_SB_VERSION_5,
        sector_size: opts.sector_size,
        inode_size: 512,
        inode_per_block: (opts.block_size / 512) as u16,
        fname: [0u8; 12],
        block_log,
        sect_log: ilog2(opts.sector_size as u64),
        inode_log: 9,
        inopblog,
        agblklog: ceil_ilog2(opts.ag_blocks as u64),
        rextslog: 0,
        inprogress: false,
        imax_pct: 25,
        icount: 64,
        ifree: 63,
        fdblocks: opts.total_blocks - 10,
        frextents: 0,
        uquotino: 0,
        gquotino: 0,
        qflags: 0,
        flags: 0,
        shared_vn: 0,
        inoalignmt: 0,
        unit: 0,
        width: 0,
        log_sector_size: opts.sector_size,
        log_sunit: 0,
        features2: 0,
        bad_features2: 0,
        v5: Some(
            V5Fields {
                features_compat: 0,
                features_ro_compat: 0,
                features_incompat: 0,
                features_log_incompat: 0,
                crc: 0,
                sparse_inode_align: 8,
                pquotino: 0,
                lsn: 0,
                meta_uuid: opts.uuid,
                metadirino: 0,
                rgcount: 0,
                rgextents: 0,
                rgblklog: 0,
                rtstart: 0,
                rtreserved: 0,
            },
        ),
    }
}

/// The AGF that `mkfs` writes for group `agno`: the free-space trees have
/// their roots in blocks 4 and 5, and all but the first 10 blocks are free.
pub open spec fn mkfs_agf_of(opts: MkfsOptions, agno: u32) -> Agf {
    Agf {
        seqno: agno,
        length: opts.ag_blocks,
        bno_root: 4,
        cnt_root: 5,
        rmap_root: 0,
        bno_level: 1,
        cnt_level: 1,
        rmap_level: 0,
        flfirst: 0,
        fllast: 0,
        flcount: 0,
        freeblks: (opts.ag_blocks - 10) as u32,
        longest: (opts.ag_blocks - 10) as u32,
        btreeblks: 0,
        uuid: opts.uuid,
        rmap_blocks: 0,
        refcount_blocks: 0,
        refcount_root: 0,
        refcount_level: 0,
        lsn: 0,
        crc: 0,
    }
}

/// The AGI that `mkfs` writes for group `agno`: the inode trees have their
/// roots in blocks 6 and 7; group 0 holds one chunk of 64 inodes, one of them
/// used (the root directory); no unlinked lists.
pub open spec fn mkfs_agi_of(opts: MkfsOptions, agno: u32) -> Agi {
    Agi {
        seqno: agno,
        length: opts.ag_blocks,
        count: if agno == 0 {
            64
        } else {
            0
        },
        root: 6,
        level: 1,
        freecount: if agno == 0 {
            63
        } else {
            0
        },
        newino: 0xffff_ffff,
        dirino: 0xffff_ffff,
        unlinked: spec_array_fill_for_copy_type::<u32, 64>(0xffff_ffff),
        uuid: opts.uuid,
        crc: 0,
        lsn: 0,
        free_root: 7,
        free_level: 1,
        iblocks: 0,
        fblocks: 0,
    }
}

/// The AGFL header that `mkfs` writes for group `agno`: an empty free list.
pub open spec fn mkfs_agfl_of(opts: MkfsOptions, agno: u32) -> Agfl {
    Agfl { magicnum: 0, seqno: agno, uuid: opts.uuid, lsn: 0, crc: 0, entries_total: 0 }
}

/// The root block header that `mkfs` writes in block `blk` of group `agno`
/// for the tree with magic number `magic`: an empty leaf without siblings.
pub open spec fn mkfs_btree_root_of(opts: MkfsOptions, agno: u32, blk: u32, magic: u32) -> InodeBtreeRoot {
    InodeBtreeRoot {
        kind: InodeBtreeKind::Inobt,
        magic,
        level: 1,
        numrecs: 0,
        leftsib: 0xffff_ffff,
        rightsib: 0xffff_ffff,
        blkno: (agno * opts.ag_blocks + blk) as u64,
        lsn: 0,
        uuid: opts.uuid,
        owner: agno,
        crc: 0,
    }
}

/// The magic number of a checksummed by-block free-space tree block.
pub const XFS_ABTB_CRC_MAGIC: u32 = 0x4142_3342;

/// The magic number of a checksummed by-count free-space tree block.
pub const XFS_ABTC_CRC_MAGIC: u32 = 0x434e_3342;

/// The root directory inode that `mkfs` writes: an empty inline directory
/// with mode 0755.
pub open spec fn mkfs_root_inode_of(opts: MkfsOptions) -> Inode {
    Inode {
        magic: XFS_DINODE_MAGIC,
        mode: 0x41ed,
        version: 3,
        format: InodeFormat::Local,
        onlink: 0,
        uid: 0,
        gid: 0,
        nlink: 2,
        projid: 0,
        flushiter: 0,
        atime: (0, 0),
        mtime: (0, 0),
        ctime: (0, 0),
        size: 0,
        nblocks: 0,
        extsize: 0,
        nextents: 0,
        anextents: 0,
        forkoff: 0,
        aformat: InodeFormat::Extents,
        dmevmask: 0,
        dmstate: 0,
        flags: 0,
        generation: 0,
        next_unlinked: 0xffff_ffff,
        crc: 0,
        change_count: 0,
        lsn: 0,
        flags2: 0,
        cowextsize: 0,
        crtime: (0, 0),
        ino: mkfs_rootino(opts),
        uuid: opts.uuid,
    }
}

/// `b` with its checksum written at `cksum_offset`, when it holds the field.
pub open spec fn sealed(b: Seq<u8>, cksum_offset: int) -> Seq<u8> {
    if cksum_offset + 4 <= b.len() {
        with_xfs_crc(b, cksum_offset)
    } else {
        b
    }
}

/// The byte offset of allocation group `agno`.
pub open spec fn mkfs_ag_start(opts: MkfsOptions, agno: u32) -> int {
    agno * opts.ag_blocks * opts.block_size
}

/// The size of the scratch buffer that each structure is laid out in.
pub const MKFS_BUF_SIZE: usize = 4096;

/// The writes (device offset, bytes) that `mkfs` makes for group `agno`, in
/// order: the superblock, AGF, AGI and AGFL sectors, the four tree root
/// blocks, and in group 0 the root directory inode. Each is laid out over
/// zeros, cut to its sector, block or inode size, and sealed with its checksum.
#[verifier::opaque]
pub open spec fn mkfs_ag_plan(opts: MkfsOptions, agno: u32) -> Seq<(u64, Seq<u8>)> {
    let start = mkfs_ag_start(opts, agno);
    let ss = opts.sector_size as int;
    let bs = opts.block_size as int;
    let z = zeros(MKFS_BUF_SIZE as nat);
    let root = |blk: u32, magic: u32|
        (
            (start + blk * bs) as u64,
            sealed(
                inobt_image(mkfs_btree_root_of(opts, agno, blk, magic), z).subrange(0, bs),
                XFS_BTREE_SBLOCK_CRC_OFF as int,
            ),
        );
    let headers = seq![
        (
            start as u64,
            sealed(superblock_image(mkfs_superblock_of(opts), z).subrange(0, ss), XFS_SB_CRC_OFF as int),
        ),
        (
            (start + ss) as u64,
            sealed(agf_image(mkfs_agf_of(opts, agno), z).subrange(0, ss), XFS_AGF_CRC_OFF as int),
        ),
        (
            (start + 2 * ss) as u64,
            sealed(agi_image(mkfs_agi_of(opts, agno), z).subrange(0, ss), XFS_AGI_CRC_OFF as int),
        ),
        (
            (start + 3 * ss) as u64,
            sealed(agfl_image(mkfs_agfl_of(opts, agno), z).subrange(0, ss), XFS_AGFL_CRC_OFF as int),
        ),
        root(4, XFS_ABTB_CRC_MAGIC),
        root(5, XFS_ABTC_CRC_MAGIC),
        root(6, XFS_IBT_CRC_MAGIC),
        root(7, XFS_FIBT_CRC_MAGIC),
    ];
    if agno == 0 {
        headers.push(
            (
                (start + 8 * bs) as u64,
                sealed(inode_image(mkfs_root_inode_of(opts), z).subrange(0, 512), XFS_DINODE_CRC_OFF as int),
            ),
        )
    } else {
        headers
    }
}

/// The first `len` bytes of `buf`, sealed with their checksum at `cksum_offset`.
fn sealed_prefix(buf: &[u8], len: usize, cksum_offset: usize) -> (r: Vec<u8>)
    requires
        len <= buf@.len(),
    ensures
        r@ == sealed(buf@.subrange(0, len as int), cksum_offset as int),
{
    let mut out = slice_to_vec(&buf[0..len]);
    write_xfs_crc(out.as_mut_slice(), cksum_offset);
    out
}

/// A zeroed scratch buffer.
fn zero_buf() -> (r: Vec<u8>)
    ensures
        r@ == zeros(MKFS_BUF_SIZE as nat),
{
    let r = vec![0u8; MKFS_BUF_SIZE];
    assert(r@ =~= zeros(MKFS_BUF_SIZE as nat));
    r
}

/// The writes `v` as the specifications see them.
pub open spec fn writes_view(v: Seq<(u64, Vec<u8>)>) -> Seq<(u64, Seq<u8>)> {
    v.map_values(|w: (u64, Vec<u8>)| (w.0, w.1@))
}

/// Lays out the tree root block `blk` of group `agno` and seals it.
fn root_block(opts: &MkfsOptions, agno: u32, blkno: u64, blk: u32, magic: u32) -> (r: Vec<u8>)
    requires
        opts.block_size <= MKFS_BUF_SIZE,
        blkno == agno * opts.ag_blocks + blk,
    ensures
        r@ == sealed(
            inobt_image(mkfs_btree_root_of(*opts, agno, blk, magic), zeros(MKFS_BUF_SIZE as nat)).subrange(
                0,
                opts.block_size as int,
            ),
            XFS_BTREE_SBLOCK_CRC_OFF as int,
        ),
{
    let root = InodeBtreeRoot {
        kind: InodeBtreeKind::Inobt,
        magic,
        level: 1,
        numrecs: 0,
        leftsib: 0xffff_ffff,
        rightsib: 0xffff_ffff,
        blkno,
        lsn: 0,
        uuid: opts.uuid,
        owner: agno,
        crc: 0,
    };
    let mut buf = zero_buf();
    let _ = root.serialize(buf.as_mut_slice());
    sealed_prefix(buf.as_slice(), opts.block_size as usize, XFS_BTREE_SBLOCK_CRC_OFF)
}

/// Lays out the superblock sector.
fn superblock_sector(opts: &MkfsOptions, sb: &Superblock) -> (r: Vec<u8>)
    requires
        opts.sector_size <= MKFS_BUF_SIZE,
    ensures
        r@ == sealed(
            superblock_image(*sb, zeros(MKFS_BUF_SIZE as nat)).subrange(0, opts.sector_size as int),
            XFS_SB_CRC_OFF as int,
        ),
{
    let mut buf = zero_buf();
    let _ = sb.serialize(buf.as_mut_slice());
    sealed_prefix(buf.as_slice(), opts.sector_size as usize, XFS_SB_CRC_OFF)
}

/// Lays out the AGF sector of group `agno`.
fn agf_sector(opts: &MkfsOptions, agno: u32) -> (r: Vec<u8>)
    requires
        mkfs_options_ok(*opts),
    ensures
        r@ == sealed(
            agf_image(mkfs_agf_of(*opts, agno), zeros(MKFS_BUF_SIZE as nat)).subrange(
                0,
                opts.sector_size as int,
            ),
            XFS_AGF_CRC_OFF as int,
        ),
{
    let agf = Agf {
        seqno: agno,
        length: opts.ag_blocks,
        bno_root: 4,
        cnt_root: 5,
        rmap_root: 0,
        bno_level: 1,
        cnt_level: 1,
        rmap_level: 0,
        flfirst: 0,
        fllast: 0,
        flcount: 0,
        freeblks: opts.ag_blocks - 10,
        longest: opts.ag_blocks - 10,
        btreeblks: 0,
        uuid: opts.uuid,
        rmap_blocks: 0,
        refcount_blocks: 0,
        refcount_root: 0,
        refcount_level: 0,
        lsn: 0,
        crc: 0,
    };
    let mut buf = zero_buf();
    let _ = agf.serialize(buf.as_mut_slice());
    sealed_prefix(buf.as_slice(), opts.sector_size as usize, XFS_AGF_CRC_OFF)
}

/// Lays out the AGI sector of group `agno`.
fn agi_sector(opts: &MkfsOptions, agno: u32) -> (r: Vec<u8>)
    requires
        mkfs_options_ok(*opts),
    ensures
        r@ == sealed(
            agi_image(mkfs_agi_of(*opts, agno), zeros(MKFS_BUF_SIZE as nat)).subrange(
                0,
                opts.sector_size as int,
            ),
            XFS_AGI_CRC_OFF as int,
        ),
{
    let agi = Agi {
        seqno: agno,
        length: opts.ag_blocks,
        count: if agno == 0 {
            64
        } else {
            0
        },
        root: 6,
        level: 1,
        freecount: if agno == 0 {
            63
        } else {
            0
        },
        newino: 0xffff_ffff,
        dirino: 0xffff_ffff,
        unlinked: [0xffff_ffffu32; 64],
        uuid: opts.uuid,
        crc: 0,
        lsn: 0,
        free_root: 7,
        free_level: 1,
        iblocks: 0,
        fblocks: 0,
    };
    let mut buf = zero_buf();
    let _ = agi.serialize(buf.as_mut_slice());
    sealed_prefix(buf.as_slice(), opts.sector_size as usize, XFS_AGI_CRC_OFF)
}

/// Lays out the AGFL sector of group `agno`.
fn agfl_sector(opts: &MkfsOptions, agno: u32) -> (r: Vec<u8>)
    requires
        mkfs_options_ok(*opts),
    ensures
        r@ == sealed(
            agfl_image(mkfs_agfl_of(*opts, agno), zeros(MKFS_BUF_SIZE as nat)).subrange(
                0,
                opts.sector_size as int,
            ),
            XFS_AGFL_CRC_OFF as int,
        ),
{
    let agfl = Agfl { magicnum: 0, seqno: agno, uuid: opts.uuid, lsn: 0, crc: 0, entries_total: 0 };
    let mut buf = zero_buf();
    let _ = agfl.serialize(buf.as_mut_slice(), true);
    sealed_prefix(buf.as_slice(), opts.sector_size as usize, XFS_AGFL_CRC_OFF)
}

/// Lays out the root directory inode.
fn root_inode_block(opts: &MkfsOptions, sb: &Superblock) -> (r: Vec<u8>)
    requires
        mkfs_options_ok(*opts),
        *sb == mkfs_superblock_of(*opts),
    ensures
        r@ == sealed(
            inode_image(mkfs_root_inode_of(*opts), zeros(MKFS_BUF_SIZE as nat)).subrange(0, 512),
            XFS_DINODE_CRC_OFF as int,
        ),
{
    let root_inode = Inode {
        magic: XFS_DINODE_MAGIC,
        mode: 0x41ed,
        version: 3,
        format: InodeFormat::Local,
        onlink: 0,
        uid: 0,
        gid: 0,
        nlink: 2,
        projid: 0,
        flushiter: 0,
        atime: (0, 0),
        mtime: (0, 0),
        ctime: (0, 0),
        size: 0,
        nblocks: 0,
        extsize: 0,
        nextents: 0,
        anextents: 0,
        forkoff: 0,
        aformat: InodeFormat::Extents,
        dmevmask: 0,
        dmstate: 0,
        flags: 0,
        generation: 0,
        next_unlinked: 0xffff_ffff,
        crc: 0,
        change_count: 0,
        lsn: 0,
        flags2: 0,
        cowextsize: 0,
        crtime: (0, 0),
        ino: sb.rootino,
        uuid: opts.uuid,
    };
    let mut buf = zero_buf();
    let _ = root_inode.serialize(buf.as_mut_slice());
    sealed_prefix(buf.as_slice(), sb.inode_size as usize, XFS_DINODE_CRC_OFF)
}

/// The writes that `mkfs` makes for group `agno`.
pub fn mkfs_ag_writes(opts: &MkfsOptions, sb: &Superblock, agno: u32) -> (r: Vec<(u64, Vec<u8>)>)
    requires
        mkfs_options_ok(*opts),
        *sb == mkfs_superblock_of(*opts),
        agno < mkfs_ag_count(*opts),
    ensures
        writes_view(r@) == mkfs_ag_plan(*opts, agno),
{
    let ab = opts.ag_blocks as u64;
    let bs = opts.block_size as u64;
    let ss = opts.sector_size as u64;
    let a = agno as u64;
    let ghost count = mkfs_ag_count(*opts) as int;
    assert(a * ab * bs + 8 * bs + 3 * ss <= u64::MAX && a * ab <= u64::MAX && a * ab + 8 <= u64::MAX)
        by (nonlinear_arith)
        requires
            a < count,
            (count - 1) * ab * bs + 8 * bs + 3 * ss <= u64::MAX,
            bs >= 512,
    ;
    let start = a * ab * bs;
    let first = a * ab;
    let mut writes: Vec<(u64, Vec<u8>)> = Vec::new();
    writes.push((start, superblock_sector(opts, sb)));
    writes.push((start + ss, agf_sector(opts, agno)));
    writes.push((start + 2 * ss, agi_sector(opts, agno)));
    writes.push((start + 3 * ss, agfl_sector(opts, agno)));
    writes.push((start + 4 * bs, root_block(opts, agno, first + 4, 4, XFS_ABTB_CRC_MAGIC)));
    writes.push((start + 5 * bs, root_block(opts, agno, first + 5, 5, XFS_ABTC_CRC_MAGIC)));
    writes.push((start + 6 * bs, root_block(opts, agno, first + 6, 6, XFS_IBT_CRC_MAGIC)));
    writes.push((start + 7 * bs, root_block(opts, agno, first + 7, 7, XFS_FIBT_CRC_MAGIC)));
    if agno == 0 {
        writes.push((start + 8 * bs, root_inode_block(opts, sb)));
    }
    assert(writes_view(writes@) =~~= mkfs_ag_plan(*opts, agno)) by {
        reveal(mkfs_ag_plan);
    }
    writes
}

/// The writes that `mkfs` makes for the groups `0..n`, group after group.
pub open spec fn mkfs_writes_upto(opts: MkfsOptions, n: nat) -> Seq<(u64, Seq<u8>)>
    decreases n,
{
    if n == 0 {
        Seq::empty()
    } else {
        mkfs_writes_upto(opts, (n - 1) as nat) + mkfs_ag_plan(opts, (n - 1) as u32)
    }
}

/// All the writes that `mkfs` makes, in order: the plans of its groups.
pub open spec fn mkfs_writes(opts: MkfsOptions) -> Seq<(u64, Seq<u8>)> {
    mkfs_writes_upto(opts, mkfs_ag_count(opts) as nat)
}

/// The record of the writes `ws`, made in order and each answered with
/// success.
pub open spec fn written(ws: Seq<(u64, Seq<u8>)>) -> Seq<DeviceRequest> {
    ws.map_values(|w: (u64, Seq<u8>)| DeviceRequest::Write { offset: w.0, data: w.1, refusal: None })
}

/// The record `f` is the record `o` followed by the first `k` writes of `ws`,
/// accepted, and then the write `ws[k]`, refused with `d`.
pub open spec fn refused_at(
    o: Seq<DeviceRequest>,
    f: Seq<DeviceRequest>,
    ws: Seq<(u64, Seq<u8>)>,
    k: int,
    d: DeviceError,
) -> bool {
    &&& 0 <= k < ws.len()
    &&& f == (o + written(ws.take(k))).push(
        DeviceRequest::Write { offset: ws[k].0, data: ws[k].1, refusal: Some(d) },
    )
}

/// The writes for fewer groups are the first writes for more.
pub proof fn lemma_mkfs_writes_prefix(opts: MkfsOptions, m: nat, n: nat)
    requires
        m <= n,
    ensures
        mkfs_writes_upto(opts, m).len() <= mkfs_writes_upto(opts, n).len(),
        mkfs_writes_upto(opts, n).take(mkfs_writes_upto(opts, m).len() as int) == mkfs_writes_upto(opts, m),
    decreases n,
{
    if m < n {
        lemma_mkfs_writes_prefix(opts, m, (n - 1) as nat);
        let a = mkfs_writes_upto(opts, (n - 1) as nat);
        let b = mkfs_ag_plan(opts, (n - 1) as u32);
        assert((a + b).take(mkfs_writes_upto(opts, m).len() as int) =~= a.take(
            mkfs_writes_upto(opts, m).len() as int,
        ));
    } else {
        assert(mkfs_writes_upto(opts, n).take(mkfs_writes_upto(opts, n).len() as int) =~= mkfs_writes_upto(
            opts,
            n,
        ));
    }
}

/// Makes a new filesystem on `dev`: for each allocation group, writes the
/// blocks that [`mkfs_ag_writes`] lays out, group after group, and stops at
/// the first write the device refuses.
///
/// The device receives exactly the writes of [`mkfs_writes`], in order, up to
/// and with the first one it refuses; `mkfs` succeeds exactly when it accepts
/// them all, and otherwise returns the device's error.
///
/// # Errors
///
/// * `WriteError::Device` - what the device answered to the write it refused;
///   the writes made before stay made.
pub fn mkfs<D: BlockDevice>(dev: &mut D, opts: &MkfsOptions) -> (r: Result<(), WriteError>)
    requires
        mkfs_options_ok(*opts),
    ensures
        r matches Err(e) ==> e is Device,
        mkfs_ag_count(*opts) == 0 ==> r == Ok::<(), WriteError>(()),
        r is Ok ==> final(dev).requests() == old(dev).requests() + written(mkfs_writes(*opts)),
        r matches Err(e) ==> exists|k: int, d: DeviceError|
            e == WriteError::Device(d) && #[trigger] refused_at(
                old(dev).requests(),
                final(dev).requests(),
                mkfs_writes(*opts),
                k,
                d,
            ),
{
    let sb = mkfs_superblock(opts);
    let ghost o = old(dev).requests();
    let ghost count = mkfs_ag_count(*opts) as nat;
    let mut agno: u32 = 0;
    let mut refusal: Option<DeviceError> = None;
    proof {
        assert(o + written(Seq::empty()) =~= o);
    }
    while agno < sb.ag_count
        invariant_except_break
            mkfs_options_ok(*opts),
            sb == mkfs_superblock_of(*opts),
            sb.ag_count == count,
            count == mkfs_ag_count(*opts),
            agno <= count,
            dev.requests() == o + written(mkfs_writes_upto(*opts, agno as nat)),
            refusal is None,
        ensures
            refusal matches Some(d) ==> exists|k: int| #[trigger] refused_at(
                o,
                dev.requests(),
                mkfs_writes(*opts),
                k,
                d,
            ),
            refusal is None ==> dev.requests() == o + written(mkfs_writes(*opts)),
        decreases sb.ag_count - agno,
    {
        let writes = mkfs_ag_writes(opts, &sb, agno);
        let ghost done = mkfs_writes_upto(*opts, agno as nat);
        let ghost mid = dev.requests();
        let w = write_all(dev, &writes);
        proof {
            lemma_mkfs_writes_step(*opts, agno as nat);
            lemma_mkfs_writes_prefix(*opts, (agno + 1) as nat, count);
        }
        match w {
            Ok(()) => {
                proof {
                    lemma_written_append(o, done, writes_view(writes@));
                }
            },
            Err(e) => {
                proof {
                    let plan = writes_view(writes@);
                    let k = choose|k: int| #[trigger] refused_at(mid, dev.requests(), plan, k, e);
                    lemma_refused_shift(o, done, plan, mkfs_writes(*opts), dev.requests(), k, e);
                }
                refusal = Some(e);
                break;
            },
        }
        agno = agno + 1;
    }
    match refusal {
        Some(e) => Err(WriteError::Device(e)),
        None => Ok(()),
    }
}

/// One more group's plan extends the writes.
proof fn lemma_mkfs_writes_step(opts: MkfsOptions, n: nat)
    ensures
        mkfs_writes_upto(opts, n + 1) == mkfs_writes_upto(opts, n) + mkfs_ag_plan(opts, n as u32),
{
}

/// Makes the writes `writes` in order, stopping at the first that the device
/// refuses.
fn write_all<D: BlockDevice>(dev: &mut D, writes: &Vec<(u64, Vec<u8>)>) -> (r: Result<(), DeviceError>)
    ensures
        r is Ok ==> final(dev).requests() == old(dev).requests() + written(writes_view(writes@)),
        r matches Err(d) ==> exists|k: int| #[trigger] refused_at(
            old(dev).requests(),
            final(dev).requests(),
            writes_view(writes@),
            k,
            d,
        ),
{
    let ghost o = old(dev).requests();
    let ghost ws = writes_view(writes@);
    proof {
        assert(o + written(ws.take(0)) =~= o);
    }
    let mut k: usize = 0;
    let mut refusal: Option<DeviceError> = None;
    while k < writes.len()
        invariant_except_break
            k <= writes@.len(),
            ws == writes_view(writes@),
            dev.requests() == o + written(ws.take(k as int)),
            refusal is None,
        ensures
            refusal matches Some(d) ==> refused_at(o, dev.requests(), ws, k as int, d),
            refusal is None ==> k == writes@.len() && dev.requests() == o + written(ws.take(k as int)),
        decreases writes@.len() - k,
    {
        let (offset, bytes) = (writes[k].0, writes[k].1.as_slice());
        let w = dev.write_at(offset, bytes);
        assert(ws[k as int] == (offset, bytes@));
        match w {
            Ok(_) => {
                proof {
                    assert(ws.take(k + 1) =~= ws.take(k as int).push(ws[k as int]));
                    assert(written(ws.take(k + 1)) =~= written(ws.take(k as int)).push(
                        DeviceRequest::Write { offset, data: bytes@, refusal: None },
                    ));
                    assert(o + written(ws.take(k + 1)) =~= (o + written(ws.take(k as int))).push(
                        DeviceRequest::Write { offset, data: bytes@, refusal: None },
                    ));
                }
            },
            Err(e) => {
                refusal = Some(e);
                break;
            },
        }
        k = k + 1;
    }
    match refusal {
        Some(d) => Err(d),
        None => {
            proof {
                assert(ws.take(ws.len() as int) =~= ws);
            }
            Ok(())
        },
    }
}

/// Writing `done` and then `plan` is writing `done + plan`.
proof fn lemma_written_append(o: Seq<DeviceRequest>, done: Seq<(u64, Seq<u8>)>, plan: Seq<(u64, Seq<u8>)>)
    ensures
        o + written(done) + written(plan) == o + written(done + plan),
{
    assert(written(done) + written(plan) =~= written(done + plan));
    assert(o + written(done) + written(plan) =~= o + (written(done) + written(plan)));
}

/// A refusal within `plan`, made after the writes `done` were accepted, is a
/// refusal within any sequence of writes that starts with `done + plan`.
proof fn lemma_refused_shift(
    o: Seq<DeviceRequest>,
    done: Seq<(u64, Seq<u8>)>,
    plan: Seq<(u64, Seq<u8>)>,
    ws: Seq<(u64, Seq<u8>)>,
    f: Seq<DeviceRequest>,
    k: int,
    d: DeviceError,
)
    requires
        refused_at(o + written(done), f, plan, k, d),
        (done + plan).len() <= ws.len(),
        ws.take((done + plan).len() as int) == done + plan,
    ensures
        refused_at(o, f, ws, done.len() + k, d),
{
    let i = done.len() + k;
    assert(ws[i] == (done + plan)[i]);
    assert(ws.take(i) =~= done + plan.take(k)) by {
        assert(ws.take(i) =~= (done + plan).take(i));
    }
    lemma_written_append(o, done, plan.take(k));
}

} // verus!
