//! What `mkfs` lays out, the reader finds and decodes: every sector and block
//! of [`mkfs_ag_plan`] carries a valid checksum, decodes to the structure that
//! `mkfs` meant to write, and lies where the reader looks for it. The sector
//! laws ask for sectors large enough to hold an AGI, the largest header.
use crate::crc::{lemma_written_crc_frame, lemma_written_crc_verifies, xfs_crc_ok};
use crate::endian::{be32, le32, zeros};
use crate::on_disk::agf::{agf_decodes_to, agf_error, agf_image, lemma_agf_roundtrip, Agf, XFS_AGF_CRC_OFF, XFS_AGF_SIZE};
use crate::on_disk::agfl::{
    agfl_decodes_to, agfl_entries, agfl_error, agfl_image, lemma_agfl_roundtrip, Agfl, XFS_AGFL_CRC_OFF,
    XFS_AGFL_MAGIC,
};
use crate::on_disk::agi::{agi_decodes_to, agi_error, agi_image, lemma_agi_roundtrip, Agi, XFS_AGI_CRC_OFF, XFS_AGI_SIZE};
use crate::on_disk::inobt::{
    inobt_decodes_to, inobt_error, inobt_image, lemma_inobt_roundtrip, InodeBtreeKind, InodeBtreeRoot,
    XFS_BTREE_SBLOCK_CRC_OFF, XFS_FIBT_CRC_MAGIC, XFS_IBT_CRC_MAGIC,
};
use crate::on_disk::inode::{inode_decodes_to, inode_error, inode_image, lemma_inode_roundtrip, Inode, XFS_DINODE_CRC_OFF};
use crate::on_disk::superblock::{
    lemma_superblock_decode_prefix, lemma_superblock_decode_unique, lemma_superblock_roundtrip, Superblock,
    XFS_DSB_SIZE, superblock_decodes_to, superblock_error, superblock_image, with_sb_crc,
    XFS_SB_CRC_OFF,
};
use crate::device::{read_answer, DeviceRequest};
use crate::reader::{
    ag_sector_place, ag_start_of, agf_read_outcome, agfl_read_outcome, btree_root_outcome, inode_location,
    inode_outcome, sat_mul, superblock_read_outcome,
};
use crate::writer::{
    ceil_log2, floor_log2, mkfs_ag_start, lemma_floor_log2_below, mkfs_ag_count, mkfs_inopblog, mkfs_rootino,
    mkfs_agf_of, mkfs_agfl_of, mkfs_agi_of, mkfs_btree_root_of, mkfs_options_ok, mkfs_root_inode_of,
    mkfs_ag_plan, mkfs_superblock_of, mkfs_writes, mkfs_writes_upto, sealed, MkfsOptions, MKFS_BUF_SIZE, XFS_ABTB_CRC_MAGIC,
    XFS_ABTC_CRC_MAGIC,
};
use vstd::arithmetic::power2::{lemma2_to64, lemma2_to64_rest, lemma_pow2_adds, lemma_pow2_strictly_increases, pow2};
use vstd::prelude::*;

verus! {

/// The image `img` cut to `len` bytes and sealed with its checksum at `off`
/// agrees with `img` outside the checksum field, and verifies.
proof fn lemma_sealed_agrees(img: Seq<u8>, len: int, off: int)
    requires
        0 <= off,
        off + 4 <= len <= img.len(),
    ensures
        sealed(img.subrange(0, len), off).len() == len,
        xfs_crc_ok(sealed(img.subrange(0, len), off), off),
        forall|i: int|
            0 <= i < len && !(off <= i < off + 4) ==> #[trigger] sealed(img.subrange(0, len), off)[i]
                == img[i],
        forall|a: int, c: int|
            0 <= a <= c <= len && (c <= off || off + 4 <= a) ==> #[trigger] sealed(
                img.subrange(0, len),
                off,
            ).subrange(a, c) == img.subrange(a, c),
{
    let p = img.subrange(0, len);
    lemma_written_crc_verifies(p, off);
    assert forall|i: int| 0 <= i < len && !(off <= i < off + 4) implies #[trigger] sealed(p, off)[i]
        == img[i] by {
        lemma_written_crc_frame(p, off, i);
    }
    assert forall|a: int, c: int| 0 <= a <= c <= len && (c <= off || off + 4 <= a) implies #[trigger] sealed(
        p,
        off,
    ).subrange(a, c) == img.subrange(a, c) by {
        assert forall|j: int| 0 <= j < c - a implies sealed(p, off).subrange(a, c)[j] == img.subrange(
            a,
            c,
        )[j] by {
            lemma_written_crc_frame(p, off, a + j);
        }
        assert(sealed(p, off).subrange(a, c) =~= img.subrange(a, c));
    }
}

/// The AGF sector that `mkfs` writes for group `agno` verifies and decodes to
/// [`mkfs_agf_of`], with the checksum it carries.
proof fn lemma_mkfs_agf_reads_back(opts: MkfsOptions, agno: u32)
    requires
        mkfs_options_ok(opts),
        XFS_AGI_SIZE <= opts.sector_size,
    ensures
        ({
            let s = sealed(
                agf_image(mkfs_agf_of(opts, agno), zeros(MKFS_BUF_SIZE as nat)).subrange(
                    0,
                    opts.sector_size as int,
                ),
                XFS_AGF_CRC_OFF as int,
            );
            &&& s.len() == opts.sector_size
            &&& xfs_crc_ok(s, XFS_AGF_CRC_OFF as int)
            &&& agf_error(s) is None
            &&& agf_decodes_to(s, Agf { crc: be32(s, XFS_AGF_CRC_OFF as int), ..mkfs_agf_of(opts, agno) })
        }),
{
    let z = zeros(MKFS_BUF_SIZE as nat);
    let a = mkfs_agf_of(opts, agno);
    let img = agf_image(a, z);
    lemma_agf_roundtrip(a, z);
    lemma_sealed_agrees(img, opts.sector_size as int, XFS_AGF_CRC_OFF as int);
}

/// The superblock sector that `mkfs` writes verifies and decodes to
/// [`mkfs_superblock_of`], with the checksum it carries.
proof fn lemma_mkfs_superblock_reads_back(opts: MkfsOptions)
    requires
        mkfs_options_ok(opts),
        XFS_AGI_SIZE <= opts.sector_size,
    ensures
        ({
            let s = sealed(
                superblock_image(mkfs_superblock_of(opts), zeros(MKFS_BUF_SIZE as nat)).subrange(
                    0,
                    opts.sector_size as int,
                ),
                XFS_SB_CRC_OFF as int,
            );
            &&& s.len() == opts.sector_size
            &&& xfs_crc_ok(s, XFS_SB_CRC_OFF as int)
            &&& superblock_error(s) is None
            &&& superblock_decodes_to(s, with_sb_crc(mkfs_superblock_of(opts), le32(s, XFS_SB_CRC_OFF as int)))
        }),
{
    let z = zeros(MKFS_BUF_SIZE as nat);
    let sb = mkfs_superblock_of(opts);
    let img = superblock_image(sb, z);
    lemma_superblock_roundtrip(sb, z);
    lemma_sealed_agrees(img, opts.sector_size as int, XFS_SB_CRC_OFF as int);
}

/// The AGI sector that `mkfs` writes for group `agno` verifies and decodes to
/// [`mkfs_agi_of`], with the checksum it carries.
proof fn lemma_mkfs_agi_reads_back(opts: MkfsOptions, agno: u32)
    requires
        mkfs_options_ok(opts),
        XFS_AGI_SIZE <= opts.sector_size,
    ensures
        ({
            let s = sealed(
                agi_image(mkfs_agi_of(opts, agno), zeros(MKFS_BUF_SIZE as nat)).subrange(
                    0,
                    opts.sector_size as int,
                ),
                XFS_AGI_CRC_OFF as int,
            );
            &&& s.len() == opts.sector_size
            &&& xfs_crc_ok(s, XFS_AGI_CRC_OFF as int)
            &&& agi_error(s) is None
            &&& agi_decodes_to(s, Agi { crc: be32(s, XFS_AGI_CRC_OFF as int), ..mkfs_agi_of(opts, agno) })
        }),
{
    let z = zeros(MKFS_BUF_SIZE as nat);
    let a = mkfs_agi_of(opts, agno);
    let img = agi_image(a, z);
    lemma_agi_roundtrip(a, z);
    lemma_sealed_agrees(img, opts.sector_size as int, XFS_AGI_CRC_OFF as int);
    let s = sealed(img.subrange(0, opts.sector_size as int), XFS_AGI_CRC_OFF as int);
    assert forall|i: int| 0 <= i < 64 implies #[trigger] a.unlinked[i] == be32(s, 40 + 4 * i) by {
        assert(s.subrange(40 + 4 * i, 44 + 4 * i) == img.subrange(40 + 4 * i, 44 + 4 * i));
    }
}

/// The AGFL sector that `mkfs` writes for group `agno` verifies and decodes to
/// [`mkfs_agfl_of`] with the AGFL magic number, the free-list size of the
/// sector and the checksum it carries.
proof fn lemma_mkfs_agfl_reads_back(opts: MkfsOptions, agno: u32)
    requires
        mkfs_options_ok(opts),
        XFS_AGI_SIZE <= opts.sector_size,
    ensures
        ({
            let s = sealed(
                agfl_image(mkfs_agfl_of(opts, agno), zeros(MKFS_BUF_SIZE as nat)).subrange(
                    0,
                    opts.sector_size as int,
                ),
                XFS_AGFL_CRC_OFF as int,
            );
            &&& s.len() == opts.sector_size
            &&& xfs_crc_ok(s, XFS_AGFL_CRC_OFF as int)
            &&& agfl_error(s, opts.sector_size) is None
            &&& agfl_decodes_to(
                s,
                opts.sector_size,
                true,
                Agfl {
                    magicnum: XFS_AGFL_MAGIC,
                    crc: be32(s, XFS_AGFL_CRC_OFF as int),
                    entries_total: agfl_entries(opts.sector_size, true),
                    ..mkfs_agfl_of(opts, agno)
                },
            )
        }),
{
    let z = zeros(MKFS_BUF_SIZE as nat);
    let a = mkfs_agfl_of(opts, agno);
    let img = agfl_image(a, z);
    lemma_agfl_roundtrip(a, z, opts.sector_size);
    lemma_sealed_agrees(img, opts.sector_size as int, XFS_AGFL_CRC_OFF as int);
}

/// The root block that `mkfs` writes in block `blk` of group `agno` for the
/// tree `kind` verifies and decodes to [`mkfs_btree_root_of`], with the
/// checksum it carries.
proof fn lemma_mkfs_inobt_root_reads_back(opts: MkfsOptions, agno: u32, blk: u32, kind: InodeBtreeKind)
    requires
        mkfs_options_ok(opts),
    ensures
        ({
            let magic = match kind {
                InodeBtreeKind::Inobt => XFS_IBT_CRC_MAGIC,
                InodeBtreeKind::Finobt => XFS_FIBT_CRC_MAGIC,
            };
            let s = sealed(
                inobt_image(mkfs_btree_root_of(opts, agno, blk, magic), zeros(MKFS_BUF_SIZE as nat)).subrange(
                    0,
                    opts.block_size as int,
                ),
                XFS_BTREE_SBLOCK_CRC_OFF as int,
            );
            &&& s.len() == opts.block_size
            &&& xfs_crc_ok(s, XFS_BTREE_SBLOCK_CRC_OFF as int)
            &&& inobt_error(s, kind, true) is None
            &&& inobt_decodes_to(
                s,
                kind,
                InodeBtreeRoot {
                    kind,
                    crc: le32(s, XFS_BTREE_SBLOCK_CRC_OFF as int),
                    ..mkfs_btree_root_of(opts, agno, blk, magic)
                },
            )
        }),
{
    let magic = match kind {
        InodeBtreeKind::Inobt => XFS_IBT_CRC_MAGIC,
        InodeBtreeKind::Finobt => XFS_FIBT_CRC_MAGIC,
    };
    let z = zeros(MKFS_BUF_SIZE as nat);
    let r = mkfs_btree_root_of(opts, agno, blk, magic);
    let img = inobt_image(r, z);
    lemma_inobt_roundtrip(r, z, kind);
    lemma_sealed_agrees(img, opts.block_size as int, XFS_BTREE_SBLOCK_CRC_OFF as int);
}

/// The root directory inode that `mkfs` writes verifies and decodes to
/// [`mkfs_root_inode_of`], with the checksum it carries.
proof fn lemma_mkfs_root_inode_reads_back(opts: MkfsOptions)
    ensures
        ({
            let s = sealed(
                inode_image(mkfs_root_inode_of(opts), zeros(MKFS_BUF_SIZE as nat)).subrange(0, 512),
                XFS_DINODE_CRC_OFF as int,
            );
            &&& s.len() == 512
            &&& xfs_crc_ok(s, XFS_DINODE_CRC_OFF as int)
            &&& inode_error(s) is None
            &&& inode_decodes_to(s, Inode { crc: le32(s, XFS_DINODE_CRC_OFF as int), ..mkfs_root_inode_of(opts) })
        }),
{
    let z = zeros(MKFS_BUF_SIZE as nat);
    let n = mkfs_root_inode_of(opts);
    let img = inode_image(n, z);
    lemma_inode_roundtrip(n, z);
    lemma_sealed_agrees(img, 512, XFS_DINODE_CRC_OFF as int);
    let s = sealed(img.subrange(0, 512), XFS_DINODE_CRC_OFF as int);
    assert(s.subrange(32, 36) == img.subrange(32, 36));
    assert(s.subrange(36, 40) == img.subrange(36, 40));
    assert(s.subrange(40, 44) == img.subrange(40, 44));
    assert(s.subrange(44, 48) == img.subrange(44, 48));
    assert(s.subrange(48, 52) == img.subrange(48, 52));
    assert(s.subrange(52, 56) == img.subrange(52, 56));
    assert(s.subrange(144, 148) == img.subrange(144, 148));
    assert(s.subrange(148, 152) == img.subrange(148, 152));
}

/// The AGF sector of the plan of group `agno` verifies and decodes to the
/// AGF that `mkfs` lays out.
pub proof fn lemma_mkfs_plan_agf(opts: MkfsOptions, agno: u32)
    requires
        mkfs_options_ok(opts),
        XFS_AGI_SIZE <= opts.sector_size,
    ensures
        ({
            let s = mkfs_ag_plan(opts, agno)[1].1;
            &&& s.len() == opts.sector_size
            &&& xfs_crc_ok(s, XFS_AGF_CRC_OFF as int)
            &&& agf_error(s) is None
            &&& agf_decodes_to(s, Agf { crc: be32(s, XFS_AGF_CRC_OFF as int), ..mkfs_agf_of(opts, agno) })
        }),
{
    lemma_plan_entries(opts, agno);
    lemma_mkfs_agf_reads_back(opts, agno);
}

/// The superblock sector of the plan of group `agno` verifies and decodes to
/// the superblock that `mkfs` lays out.
pub proof fn lemma_mkfs_plan_superblock(opts: MkfsOptions, agno: u32)
    requires
        mkfs_options_ok(opts),
        XFS_AGI_SIZE <= opts.sector_size,
    ensures
        ({
            let s = mkfs_ag_plan(opts, agno)[0].1;
            &&& s.len() == opts.sector_size
            &&& xfs_crc_ok(s, XFS_SB_CRC_OFF as int)
            &&& superblock_error(s) is None
            &&& superblock_decodes_to(s, with_sb_crc(mkfs_superblock_of(opts), le32(s, XFS_SB_CRC_OFF as int)))
        }),
{
    lemma_plan_entries(opts, agno);
    lemma_mkfs_superblock_reads_back(opts);
}

/// The AGI sector of the plan of group `agno` verifies and decodes to the
/// AGI that `mkfs` lays out.
pub proof fn lemma_mkfs_plan_agi(opts: MkfsOptions, agno: u32)
    requires
        mkfs_options_ok(opts),
        XFS_AGI_SIZE <= opts.sector_size,
    ensures
        ({
            let s = mkfs_ag_plan(opts, agno)[2].1;
            &&& s.len() == opts.sector_size
            &&& xfs_crc_ok(s, XFS_AGI_CRC_OFF as int)
            &&& agi_error(s) is None
            &&& agi_decodes_to(s, Agi { crc: be32(s, XFS_AGI_CRC_OFF as int), ..mkfs_agi_of(opts, agno) })
        }),
{
    lemma_plan_entries(opts, agno);
    lemma_mkfs_agi_reads_back(opts, agno);
}

/// The AGFL sector of the plan of group `agno` verifies and decodes to the
/// AGFL header that `mkfs` lays out, with the AGFL magic number and the
/// free-list size of the sector.
pub proof fn lemma_mkfs_plan_agfl(opts: MkfsOptions, agno: u32)
    requires
        mkfs_options_ok(opts),
        XFS_AGI_SIZE <= opts.sector_size,
    ensures
        ({
            let s = mkfs_ag_plan(opts, agno)[3].1;
            &&& s.len() == opts.sector_size
            &&& xfs_crc_ok(s, XFS_AGFL_CRC_OFF as int)
            &&& agfl_error(s, opts.sector_size) is None
            &&& agfl_decodes_to(
                s,
                opts.sector_size,
                true,
                Agfl {
                    magicnum: XFS_AGFL_MAGIC,
                    crc: be32(s, XFS_AGFL_CRC_OFF as int),
                    entries_total: agfl_entries(opts.sector_size, true),
                    ..mkfs_agfl_of(opts, agno)
                },
            )
        }),
{
    lemma_plan_entries(opts, agno);
    lemma_mkfs_agfl_reads_back(opts, agno);
}

/// The image `img` cut to `len` bytes and sealed with its checksum at `off`
/// has `len` bytes and verifies.
proof fn lemma_sealed_verifies(img: Seq<u8>, len: int, off: int)
    requires
        0 <= off,
        off + 4 <= len <= img.len(),
    ensures
        sealed(img.subrange(0, len), off).len() == len,
        xfs_crc_ok(sealed(img.subrange(0, len), off), off),
{
    lemma_written_crc_verifies(img.subrange(0, len), off);
}

/// The four tree root blocks of the plan of group `agno` fill a block each
/// and verify.
pub proof fn lemma_mkfs_plan_tree_roots(opts: MkfsOptions, agno: u32)
    requires
        mkfs_options_ok(opts),
    ensures
        forall|k: int|
            4 <= k < 8 ==> (#[trigger] mkfs_ag_plan(opts, agno)[k]).1.len() == opts.block_size
                && xfs_crc_ok(mkfs_ag_plan(opts, agno)[k].1, XFS_BTREE_SBLOCK_CRC_OFF as int),
{
    broadcast use crate::endian::group_byte_codec;

    let z = zeros(MKFS_BUF_SIZE as nat);
    let bs = opts.block_size as int;
    let off = XFS_BTREE_SBLOCK_CRC_OFF as int;
    lemma_plan_entries(opts, agno);
    lemma_sealed_verifies(inobt_image(mkfs_btree_root_of(opts, agno, 4, XFS_ABTB_CRC_MAGIC), z), bs, off);
    lemma_sealed_verifies(inobt_image(mkfs_btree_root_of(opts, agno, 5, XFS_ABTC_CRC_MAGIC), z), bs, off);
    lemma_sealed_verifies(inobt_image(mkfs_btree_root_of(opts, agno, 6, XFS_IBT_CRC_MAGIC), z), bs, off);
    lemma_sealed_verifies(inobt_image(mkfs_btree_root_of(opts, agno, 7, XFS_FIBT_CRC_MAGIC), z), bs, off);
}

/// The inode tree and free inode tree roots of the plan of group `agno`
/// decode to the roots that `mkfs` lays out.
pub proof fn lemma_mkfs_plan_inode_trees(opts: MkfsOptions, agno: u32)
    requires
        mkfs_options_ok(opts),
    ensures
        ({
            let p = mkfs_ag_plan(opts, agno);
            &&& inobt_error(p[6].1, InodeBtreeKind::Inobt, true) is None
            &&& inobt_decodes_to(
                p[6].1,
                InodeBtreeKind::Inobt,
                InodeBtreeRoot {
                    crc: le32(p[6].1, XFS_BTREE_SBLOCK_CRC_OFF as int),
                    ..mkfs_btree_root_of(opts, agno, 6, XFS_IBT_CRC_MAGIC)
                },
            )
            &&& inobt_error(p[7].1, InodeBtreeKind::Finobt, true) is None
            &&& inobt_decodes_to(
                p[7].1,
                InodeBtreeKind::Finobt,
                InodeBtreeRoot {
                    kind: InodeBtreeKind::Finobt,
                    crc: le32(p[7].1, XFS_BTREE_SBLOCK_CRC_OFF as int),
                    ..mkfs_btree_root_of(opts, agno, 7, XFS_FIBT_CRC_MAGIC)
                },
            )
        }),
{
    lemma_plan_entries(opts, agno);
    lemma_mkfs_inobt_root_reads_back(opts, agno, 6, InodeBtreeKind::Inobt);
    lemma_mkfs_inobt_root_reads_back(opts, agno, 7, InodeBtreeKind::Finobt);
}

/// In group 0, the plan ends with the root directory inode, which verifies
/// and decodes to the inode that `mkfs` lays out.
pub proof fn lemma_mkfs_plan_root_inode(opts: MkfsOptions)
    ensures
        ({
            let p = mkfs_ag_plan(opts, 0);
            let s = p[8].1;
            &&& p.len() == 9
            &&& s.len() == 512
            &&& xfs_crc_ok(s, XFS_DINODE_CRC_OFF as int)
            &&& inode_error(s) is None
            &&& inode_decodes_to(s, Inode { crc: le32(s, XFS_DINODE_CRC_OFF as int), ..mkfs_root_inode_of(opts) })
        }),
{
    lemma_plan_entries(opts, 0);
    lemma_mkfs_root_inode_reads_back(opts);
}

/// The entries of the plan of group `agno`, each the sealed image of its
/// structure.
proof fn lemma_plan_entries(opts: MkfsOptions, agno: u32)
    ensures
        ({
            let p = mkfs_ag_plan(opts, agno);
            let z = zeros(MKFS_BUF_SIZE as nat);
            let ss = opts.sector_size as int;
            let bs = opts.block_size as int;
            &&& p.len() == if agno == 0 { 9int } else { 8int }
            &&& p[0].1 == sealed(superblock_image(mkfs_superblock_of(opts), z).subrange(0, ss), XFS_SB_CRC_OFF as int)
            &&& p[1].1 == sealed(agf_image(mkfs_agf_of(opts, agno), z).subrange(0, ss), XFS_AGF_CRC_OFF as int)
            &&& p[2].1 == sealed(agi_image(mkfs_agi_of(opts, agno), z).subrange(0, ss), XFS_AGI_CRC_OFF as int)
            &&& p[3].1 == sealed(agfl_image(mkfs_agfl_of(opts, agno), z).subrange(0, ss), XFS_AGFL_CRC_OFF as int)
            &&& p[4].1 == sealed(inobt_image(mkfs_btree_root_of(opts, agno, 4, XFS_ABTB_CRC_MAGIC), z).subrange(0, bs), XFS_BTREE_SBLOCK_CRC_OFF as int)
            &&& p[5].1 == sealed(inobt_image(mkfs_btree_root_of(opts, agno, 5, XFS_ABTC_CRC_MAGIC), z).subrange(0, bs), XFS_BTREE_SBLOCK_CRC_OFF as int)
            &&& p[6].1 == sealed(inobt_image(mkfs_btree_root_of(opts, agno, 6, XFS_IBT_CRC_MAGIC), z).subrange(0, bs), XFS_BTREE_SBLOCK_CRC_OFF as int)
            &&& p[7].1 == sealed(inobt_image(mkfs_btree_root_of(opts, agno, 7, XFS_FIBT_CRC_MAGIC), z).subrange(0, bs), XFS_BTREE_SBLOCK_CRC_OFF as int)
            &&& agno == 0 ==> p[8].1 == sealed(inode_image(mkfs_root_inode_of(opts), z).subrange(0, 512), XFS_DINODE_CRC_OFF as int)
        }),
{
    reveal(mkfs_ag_plan);
}

/// The root directory inode that `mkfs` writes lies where the reader looks for
/// the superblock's root inode: at the start of block 8 of group 0, where the
/// plan of group 0 puts it. Holds whenever the number of groups is not a
/// multiple of 2^32, so that group 0 is counted.
pub proof fn lemma_mkfs_root_inode_found(opts: MkfsOptions)
    requires
        mkfs_options_ok(opts),
        mkfs_ag_count(opts) > 0,
    ensures
        inode_location(mkfs_superblock_of(opts), mkfs_rootino(opts)) == Some(8 * opts.block_size as int),
        mkfs_ag_plan(opts, 0)[8].0 == 8 * opts.block_size,
{
    let sb = mkfs_superblock_of(opts);
    let ab = opts.ag_blocks as nat;
    assert(9 <= floor_log2(opts.block_size as nat) <= 12) by {
        reveal_with_fuel(floor_log2, 14);
    }
    assert(floor_log2((ab - 1) as nat) >= 3) by {
        reveal_with_fuel(floor_log2, 4);
    }
    lemma2_to64();
    lemma2_to64_rest();
    lemma_floor_log2_below((ab - 1) as nat, 32);
    let a = sb.agblklog as nat;
    let p = sb.inopblog as nat;
    assert(a == ceil_log2(ab));
    assert(4 <= a <= 32);
    assert(p == mkfs_inopblog(opts) && p <= 3);
    let pp = pow2(p);
    let pa = pow2(a);
    assert(pa >= 16) by {
        if a > 4 {
            lemma_pow2_strictly_increases(4, a);
        }
    }
    assert(1 <= pp <= 8);
    lemma_pow2_adds(a, p);
    let ino = mkfs_rootino(opts) as int;
    assert(ino == 8 * pp);
    assert(ino / pow2(a + p) as int == 0) by (nonlinear_arith)
        requires
            ino == 8 * pp,
            pow2(a + p) == pa * pp,
            pa >= 16,
            pp >= 1,
    ;
    assert(ino / pp as int == 8 && ino % pp as int == 0) by (nonlinear_arith)
        requires
            ino == 8 * pp,
            pp >= 1,
    ;
    assert(8int % pa as int == 8) by (nonlinear_arith)
        requires
            pa >= 16,
    ;
    assert(sat_mul(0, sb.ag_blocks as int) == 0);
    assert(sat_mul(0, sb.block_size as int) == 0);
    assert(ag_start_of(sb, 0) == 0);
    lemma_plan_offsets(opts, 0);
    assert(crate::writer::mkfs_ag_start(opts, 0) == 0);
}

/// Each sector and block that `mkfs` writes for group `agno` lies where the
/// reader looks for it: the superblock, AGF, AGI and AGFL in the first four
/// sectors of the group, and the tree roots in the blocks that the AGF and
/// AGI name.
pub proof fn lemma_mkfs_headers_found(opts: MkfsOptions, agno: u32)
    requires
        mkfs_options_ok(opts),
        agno < mkfs_ag_count(opts),
    ensures
        ({
            let sb = mkfs_superblock_of(opts);
            let p = mkfs_ag_plan(opts, agno);
            let start = ag_start_of(sb, agno as int);
            let agf = mkfs_agf_of(opts, agno);
            let agi = mkfs_agi_of(opts, agno);
            &&& start == mkfs_ag_start(opts, agno)
            &&& forall|k: int| 0 <= k < 4 ==> (#[trigger] p[k]).0 == start + k * sb.sector_size
            &&& p[4].0 == start + agf.bno_root * sb.block_size
            &&& p[5].0 == start + agf.cnt_root * sb.block_size
            &&& p[6].0 == start + agi.root * sb.block_size
            &&& p[7].0 == start + agi.free_root * sb.block_size
        }),
{
    let sb = mkfs_superblock_of(opts);
    let ab = opts.ag_blocks as int;
    let bs = opts.block_size as int;
    let ss = opts.sector_size as int;
    let count = mkfs_ag_count(opts) as int;
    let g = agno as int;
    assert(g * ab <= g * ab * bs && g * ab * bs <= (count - 1) * ab * bs) by (nonlinear_arith)
        requires
            0 <= g <= count - 1,
            ab >= 0,
            bs >= 1,
    ;
    assert(sat_mul(g, ab) == g * ab);
    assert(sat_mul(g * ab, bs) == g * ab * bs);
    lemma_plan_offsets(opts, agno);
    let p = mkfs_ag_plan(opts, agno);
    let start = g * ab * bs;
    assert(start + 8 * bs + 3 * ss <= u64::MAX);
    assert forall|k: int| 0 <= k < 4 implies (#[trigger] p[k]).0 == start + k * ss by {
        if k == 0 {
        } else if k == 1 {
        } else if k == 2 {
        } else {
        }
        assert(k * ss <= 3 * ss) by (nonlinear_arith)
            requires
                0 <= k < 4,
                ss >= 0,
        ;
    }
}

/// The device offsets of the entries of the plan of group `agno`.
proof fn lemma_plan_offsets(opts: MkfsOptions, agno: u32)
    ensures
        ({
            let p = mkfs_ag_plan(opts, agno);
            let start = mkfs_ag_start(opts, agno);
            let ss = opts.sector_size as int;
            let bs = opts.block_size as int;
            &&& p[0].0 == start as u64
            &&& p[1].0 == (start + ss) as u64
            &&& p[2].0 == (start + 2 * ss) as u64
            &&& p[3].0 == (start + 3 * ss) as u64
            &&& p[4].0 == (start + 4 * bs) as u64
            &&& p[5].0 == (start + 5 * bs) as u64
            &&& p[6].0 == (start + 6 * bs) as u64
            &&& p[7].0 == (start + 7 * bs) as u64
            &&& agno == 0 ==> p[8].0 == (start + 8 * bs) as u64
        }),
{
    reveal(mkfs_ag_plan);
}

/// The plan of group `agno` has 8 entries, and 9 in group 0.
proof fn lemma_plan_len(opts: MkfsOptions, agno: u32)
    ensures
        mkfs_ag_plan(opts, agno).len() == if agno == 0 { 9int } else { 8int },
{
    reveal(mkfs_ag_plan);
}

/// The checksum offsets of the entries of the plan of group `agno`.
proof fn lemma_plan_crcs(opts: MkfsOptions, agno: u32)
    requires
        mkfs_options_ok(opts),
        XFS_AGI_SIZE <= opts.sector_size,
    ensures
        ({
            let p = mkfs_ag_plan(opts, agno);
            &&& xfs_crc_ok(p[0].1, XFS_SB_CRC_OFF as int)
            &&& xfs_crc_ok(p[1].1, XFS_AGF_CRC_OFF as int)
            &&& xfs_crc_ok(p[2].1, XFS_AGI_CRC_OFF as int)
            &&& xfs_crc_ok(p[3].1, XFS_AGFL_CRC_OFF as int)
            &&& forall|k: int| 4 <= k < 8 ==> xfs_crc_ok(#[trigger] p[k].1, XFS_BTREE_SBLOCK_CRC_OFF as int)
            &&& agno == 0 ==> xfs_crc_ok(p[8].1, XFS_DINODE_CRC_OFF as int)
        }),
{
    lemma_mkfs_plan_superblock(opts, agno);
    lemma_mkfs_plan_agf(opts, agno);
    lemma_mkfs_plan_agi(opts, agno);
    lemma_mkfs_plan_agfl(opts, agno);
    lemma_mkfs_plan_tree_roots(opts, agno);
    if agno == 0 {
        lemma_mkfs_plan_root_inode(opts);
    }
}

/// `b` carries a valid XFS checksum at some offset.
pub open spec fn carries_valid_crc(b: Seq<u8>) -> bool {
    exists|c: int| #[trigger] xfs_crc_ok(b, c)
}

/// Every buffer in the plan of group `agno` carries a valid checksum.
proof fn lemma_plan_verifies(opts: MkfsOptions, agno: u32)
    requires
        mkfs_options_ok(opts),
        XFS_AGI_SIZE <= opts.sector_size,
    ensures
        forall|i: int|
            0 <= i < mkfs_ag_plan(opts, agno).len() ==> carries_valid_crc(
                #[trigger] mkfs_ag_plan(opts, agno)[i].1,
            ),
{
    lemma_plan_crcs(opts, agno);
    lemma_plan_len(opts, agno);
    assert forall|i: int| 0 <= i < mkfs_ag_plan(opts, agno).len() implies carries_valid_crc(
        #[trigger] mkfs_ag_plan(opts, agno)[i].1,
    ) by {
        let b = mkfs_ag_plan(opts, agno)[i].1;
        if i == 0 {
            assert(xfs_crc_ok(b, XFS_SB_CRC_OFF as int));
        } else if i == 1 {
            assert(xfs_crc_ok(b, XFS_AGF_CRC_OFF as int));
        } else if i == 2 {
            assert(xfs_crc_ok(b, XFS_AGI_CRC_OFF as int));
        } else if i == 3 {
            assert(xfs_crc_ok(b, XFS_AGFL_CRC_OFF as int));
        } else if i < 8 {
            assert(xfs_crc_ok(b, XFS_BTREE_SBLOCK_CRC_OFF as int));
        } else {
            assert(xfs_crc_ok(b, XFS_DINODE_CRC_OFF as int));
        }
    }
}

/// Every buffer that `mkfs` writes for the groups `0..n` carries a valid
/// checksum.
proof fn lemma_mkfs_writes_upto_verify(opts: MkfsOptions, n: nat)
    requires
        mkfs_options_ok(opts),
        XFS_AGI_SIZE <= opts.sector_size,
    ensures
        forall|i: int|
            0 <= i < mkfs_writes_upto(opts, n).len() ==> carries_valid_crc(
                #[trigger] mkfs_writes_upto(opts, n)[i].1,
            ),
    decreases n,
{
    if n > 0 {
        let a = mkfs_writes_upto(opts, (n - 1) as nat);
        let b = mkfs_ag_plan(opts, (n - 1) as u32);
        lemma_mkfs_writes_upto_verify(opts, (n - 1) as nat);
        lemma_plan_verifies(opts, (n - 1) as u32);
        assert(mkfs_writes_upto(opts, n) == a + b);
        assert forall|i: int| 0 <= i < mkfs_writes_upto(opts, n).len() implies carries_valid_crc(
            #[trigger] mkfs_writes_upto(opts, n)[i].1,
        ) by {
            if i < a.len() {
                assert(mkfs_writes_upto(opts, n)[i] == a[i]);
            } else {
                assert(mkfs_writes_upto(opts, n)[i] == b[i - a.len()]);
            }
        }
    }
}

/// Every buffer that `mkfs` writes carries a valid checksum, at the offset of
/// the structure it holds. The sectors must be large enough to hold an AGI.
pub proof fn lemma_mkfs_writes_verify(opts: MkfsOptions)
    requires
        mkfs_options_ok(opts),
        XFS_AGI_SIZE <= opts.sector_size,
    ensures
        forall|i: int|
            0 <= i < mkfs_writes(opts).len() ==> carries_valid_crc(#[trigger] mkfs_writes(opts)[i].1),
{
    lemma_mkfs_writes_upto_verify(opts, mkfs_ag_count(opts) as nat);
}

/// The writes that `mkfs` makes for group `agno` stand, in the order of its
/// plan, after the 8 writes of each earlier group and the root inode of
/// group 0.
pub proof fn lemma_mkfs_writes_of_group(opts: MkfsOptions, agno: u32)
    requires
        agno < mkfs_ag_count(opts),
    ensures
        ({
            let start = 8 * agno + if agno > 0 { 1int } else { 0int };
            let p = mkfs_ag_plan(opts, agno);
            &&& start + p.len() <= mkfs_writes(opts).len()
            &&& mkfs_writes(opts).subrange(start, start + p.len()) == p
        }),
{
    lemma_upto_len(opts, agno as nat);
    lemma_plan_len(opts, agno);
    crate::writer::lemma_mkfs_writes_prefix(opts, (agno + 1) as nat, mkfs_ag_count(opts) as nat);
    let a = mkfs_writes_upto(opts, agno as nat);
    let p = mkfs_ag_plan(opts, agno);
    let ws = mkfs_writes(opts);
    assert(mkfs_writes_upto(opts, (agno + 1) as nat) == a + p);
    assert(ws.subrange(a.len() as int, (a.len() + p.len()) as int) =~= (a + p).subrange(a.len() as int, (a.len() + p.len()) as int));
    assert((a + p).subrange(a.len() as int, (a.len() + p.len()) as int) =~= p);
}

/// The writes for the groups `0..n` number 8 per group and one more for the
/// root inode of group 0.
proof fn lemma_upto_len(opts: MkfsOptions, n: nat)
    requires
        n <= 0x1_0000_0000,
    ensures
        mkfs_writes_upto(opts, n).len() == 8 * n + if n > 0 { 1int } else { 0int },
    decreases n,
{
    if n > 0 {
        lemma_upto_len(opts, (n - 1) as nat);
        lemma_plan_len(opts, (n - 1) as u32);
        assert(mkfs_writes_upto(opts, n) == mkfs_writes_upto(opts, (n - 1) as nat) + mkfs_ag_plan(
            opts,
            (n - 1) as u32,
        ));
    }
}

/// What `mkfs` writes, `read_superblock` reads back: from a device that
/// answers the reads of the superblock with the bytes that `mkfs` wrote at
/// offset 0, `read_superblock` returns the superblock that `mkfs` laid out,
/// with the checksum it carries. Holds for sectors large enough to hold an
/// AGI, when the group count is not a multiple of 2^32.
pub proof fn lemma_mkfs_superblock_read_back(
    opts: MkfsOptions,
    f: Seq<DeviceRequest>,
    b: int,
    r: Result<Superblock, crate::error::ReadError>,
)
    requires
        mkfs_options_ok(opts),
        XFS_AGI_SIZE <= opts.sector_size,
        mkfs_ag_count(opts) > 0,
        superblock_read_outcome(f, b, r),
        read_answer(f, b) == Ok::<Seq<u8>, crate::error::DeviceError>(
            mkfs_writes(opts)[0].1.subrange(0, XFS_DSB_SIZE as int),
        ),
        f.len() > b + 1 ==> read_answer(f, b + 1) == Ok::<Seq<u8>, crate::error::DeviceError>(
            mkfs_writes(opts)[0].1,
        ),
    ensures
        r == Ok::<Superblock, crate::error::ReadError>(
            with_sb_crc(mkfs_superblock_of(opts), le32(mkfs_writes(opts)[0].1, XFS_SB_CRC_OFF as int)),
        ),
{
    let s = mkfs_writes(opts)[0].1;
    assert(s == mkfs_ag_plan(opts, 0)[0].1) by {
        lemma_mkfs_writes_of_group(opts, 0);
        lemma_plan_len(opts, 0);
        let ws = mkfs_writes(opts);
        assert(ws[0] == ws.subrange(0, 9)[0]);
    }
    let e = with_sb_crc(mkfs_superblock_of(opts), le32(s, XFS_SB_CRC_OFF as int));
    assert(s.len() == opts.sector_size && xfs_crc_ok(s, XFS_SB_CRC_OFF as int) && superblock_error(s) is None
        && superblock_decodes_to(s, e)) by {
        lemma_mkfs_plan_superblock(opts, 0);
    }
    assert(e.version == 5 && e.sector_size == opts.sector_size);
    lemma_sector_read_back(f, b, r, s, e);
}

/// From a device that answers the reads of `read_superblock` with the first
/// [`XFS_DSB_SIZE`] bytes of a sector `s` and then with `s`, where `s`
/// decodes to a version 5 superblock `e` and verifies, `read_superblock`
/// returns `e`.
proof fn lemma_sector_read_back(
    f: Seq<DeviceRequest>,
    b: int,
    r: Result<Superblock, crate::error::ReadError>,
    s: Seq<u8>,
    e: Superblock,
)
    requires
        XFS_DSB_SIZE <= s.len(),
        superblock_read_outcome(f, b, r),
        read_answer(f, b) == Ok::<Seq<u8>, crate::error::DeviceError>(s.subrange(0, XFS_DSB_SIZE as int)),
        f.len() > b + 1 ==> read_answer(f, b + 1) == Ok::<Seq<u8>, crate::error::DeviceError>(s),
        superblock_error(s) is None,
        superblock_decodes_to(s, e),
        e.version == 5,
        e.sector_size <= 4096,
        xfs_crc_ok(s, XFS_SB_CRC_OFF as int),
    ensures
        r == Ok::<Superblock, crate::error::ReadError>(e),
{
    lemma_superblock_decode_prefix(s, XFS_DSB_SIZE as int, e);
    crate::reader::lemma_superblock_read_of(f, b, r, e, s);
}

/// Where the write `j` of the plan of group `agno` stands among all the
/// writes of `mkfs`.
pub open spec fn mkfs_write_index(agno: u32, j: int) -> int {
    8 * agno + (if agno > 0 { 1int } else { 0int }) + j
}

/// The write `j` of the plan of group `agno` is the write
/// [`mkfs_write_index`] of `mkfs`.
proof fn lemma_mkfs_write_of(opts: MkfsOptions, agno: u32, j: int)
    requires
        agno < mkfs_ag_count(opts),
        0 <= j < mkfs_ag_plan(opts, agno).len(),
    ensures
        0 <= mkfs_write_index(agno, j) < mkfs_writes(opts).len(),
        mkfs_writes(opts)[mkfs_write_index(agno, j)] == mkfs_ag_plan(opts, agno)[j],
{
    lemma_mkfs_writes_of_group(opts, agno);
    let start = 8 * agno + if agno > 0 { 1int } else { 0int };
    let p = mkfs_ag_plan(opts, agno);
    assert(mkfs_writes(opts).subrange(start, start + p.len())[j] == mkfs_writes(opts)[start + j]);
}

/// The superblock that the reader has read from what `mkfs` wrote: the one
/// `mkfs` laid out, with the checksum `c` it carries.
pub open spec fn mkfs_sb_read(opts: MkfsOptions, c: u32) -> Superblock {
    with_sb_crc(mkfs_superblock_of(opts), c)
}

/// The sectors and blocks of group `agno` are where the reader, holding the
/// superblock `mkfs` wrote, looks for them.
proof fn lemma_mkfs_places(opts: MkfsOptions, agno: u32, c: u32)
    requires
        mkfs_options_ok(opts),
        agno < mkfs_ag_count(opts),
    ensures
        ag_sector_place(mkfs_sb_read(opts, c), agno, 1) == Some(mkfs_ag_plan(opts, agno)[1].0),
        ag_sector_place(mkfs_sb_read(opts, c), agno, 3) == Some(mkfs_ag_plan(opts, agno)[3].0),
        crate::reader::ag_block_place(mkfs_sb_read(opts, c), agno, mkfs_agi_of(opts, agno).free_root)
            == Some(mkfs_ag_plan(opts, agno)[7].0),
{
    lemma_mkfs_headers_found(opts, agno);
    let sb = mkfs_sb_read(opts, c);
    assert(ag_start_of(sb, agno as int) == ag_start_of(mkfs_superblock_of(opts), agno as int));
    let p = mkfs_ag_plan(opts, agno);
    assert(p[1].0 == ag_start_of(sb, agno as int) + 1 * sb.sector_size);
    assert(p[3].0 == ag_start_of(sb, agno as int) + 3 * sb.sector_size);
}

/// What `mkfs` writes, `read_agf` reads back: holding the superblock `mkfs`
/// wrote, the reader looks for the AGF of group `agno` where `mkfs` wrote
/// it, and from a device that answers with those bytes it returns the AGF
/// that `mkfs` laid out, with the checksum it carries.
pub proof fn lemma_mkfs_agf_read_back(
    opts: MkfsOptions,
    agno: u32,
    c: u32,
    f: Seq<DeviceRequest>,
    b: int,
    r: Result<Agf, crate::error::ReadError>,
)
    requires
        mkfs_options_ok(opts),
        XFS_AGI_SIZE <= opts.sector_size,
        agno < mkfs_ag_count(opts),
        agf_read_outcome(mkfs_sb_read(opts, c), mkfs_writes(opts)[mkfs_write_index(agno, 1)].0, f, b, r),
        read_answer(f, b) == Ok::<Seq<u8>, crate::error::DeviceError>(
            mkfs_writes(opts)[mkfs_write_index(agno, 1)].1.subrange(0, XFS_AGF_SIZE as int),
        ),
        f.len() > b + 1 ==> read_answer(f, b + 1) == Ok::<Seq<u8>, crate::error::DeviceError>(
            mkfs_writes(opts)[mkfs_write_index(agno, 1)].1,
        ),
    ensures
        ag_sector_place(mkfs_sb_read(opts, c), agno, 1) == Some(mkfs_writes(opts)[mkfs_write_index(agno, 1)].0),
        r == Ok::<Agf, crate::error::ReadError>(
            Agf {
                crc: be32(mkfs_writes(opts)[mkfs_write_index(agno, 1)].1, XFS_AGF_CRC_OFF as int),
                ..mkfs_agf_of(opts, agno)
            },
        ),
{
    lemma_plan_len(opts, agno);
    lemma_mkfs_write_of(opts, agno, 1);
    lemma_mkfs_places(opts, agno, c);
    let s = mkfs_writes(opts)[mkfs_write_index(agno, 1)].1;
    let e = Agf { crc: be32(s, XFS_AGF_CRC_OFF as int), ..mkfs_agf_of(opts, agno) };
    assert(xfs_crc_ok(s, XFS_AGF_CRC_OFF as int) && agf_error(s) is None && agf_decodes_to(s, e)
        && s.len() == opts.sector_size) by {
        lemma_mkfs_plan_agf(opts, agno);
    }
    crate::on_disk::agf::lemma_agf_decode_prefix(s, XFS_AGF_SIZE as int, e);
    assert(mkfs_sb_read(opts, c).sector_size == opts.sector_size);
    crate::reader::lemma_agf_read_of(
        mkfs_sb_read(opts, c),
        mkfs_writes(opts)[mkfs_write_index(agno, 1)].0,
        f,
        b,
        r,
        e,
        s,
    );
}

/// What `mkfs` writes, `read_agfl` reads back: holding the superblock `mkfs`
/// wrote, the reader looks for the AGFL of group `agno` where `mkfs` wrote
/// it, and from a device that answers with that sector it returns the AGFL
/// header that `mkfs` laid out.
pub proof fn lemma_mkfs_agfl_read_back(
    opts: MkfsOptions,
    agno: u32,
    c: u32,
    f: Seq<DeviceRequest>,
    b: int,
    r: Result<Agfl, crate::error::ReadError>,
)
    requires
        mkfs_options_ok(opts),
        XFS_AGI_SIZE <= opts.sector_size,
        agno < mkfs_ag_count(opts),
        agfl_read_outcome(mkfs_sb_read(opts, c), mkfs_writes(opts)[mkfs_write_index(agno, 3)].0, f, b, r),
        read_answer(f, b) == Ok::<Seq<u8>, crate::error::DeviceError>(
            mkfs_writes(opts)[mkfs_write_index(agno, 3)].1,
        ),
    ensures
        ag_sector_place(mkfs_sb_read(opts, c), agno, 3) == Some(mkfs_writes(opts)[mkfs_write_index(agno, 3)].0),
        r == Ok::<Agfl, crate::error::ReadError>(
            Agfl {
                magicnum: XFS_AGFL_MAGIC,
                crc: be32(mkfs_writes(opts)[mkfs_write_index(agno, 3)].1, XFS_AGFL_CRC_OFF as int),
                entries_total: agfl_entries(opts.sector_size, true),
                ..mkfs_agfl_of(opts, agno)
            },
        ),
{
    lemma_plan_len(opts, agno);
    lemma_mkfs_write_of(opts, agno, 3);
    lemma_mkfs_places(opts, agno, c);
    let s = mkfs_writes(opts)[mkfs_write_index(agno, 3)].1;
    let e = Agfl {
        magicnum: XFS_AGFL_MAGIC,
        crc: be32(s, XFS_AGFL_CRC_OFF as int),
        entries_total: agfl_entries(opts.sector_size, true),
        ..mkfs_agfl_of(opts, agno)
    };
    assert(xfs_crc_ok(s, XFS_AGFL_CRC_OFF as int) && agfl_error(s, opts.sector_size) is None
        && agfl_decodes_to(s, opts.sector_size, true, e)) by {
        lemma_mkfs_plan_agfl(opts, agno);
    }
    assert(mkfs_sb_read(opts, c).sector_size == opts.sector_size);
    assert(mkfs_sb_read(opts, c).version == 5);
    crate::reader::lemma_agfl_read_of(mkfs_sb_read(opts, c), mkfs_writes(opts)[mkfs_write_index(agno, 3)].0, f, b, r, e);
}

/// What `mkfs` writes, `read_finobt_root` reads back: holding the
/// superblock `mkfs` wrote and the AGI it laid out, the reader looks for the
/// free inode tree root of group `agno` where `mkfs` wrote it, and from a
/// device that answers with that block it returns the root that `mkfs` laid
/// out, with the checksum it carries.
pub proof fn lemma_mkfs_finobt_root_read_back(
    opts: MkfsOptions,
    agno: u32,
    c: u32,
    r: Result<InodeBtreeRoot, crate::error::ReadError>,
)
    requires
        mkfs_options_ok(opts),
        agno < mkfs_ag_count(opts),
        btree_root_outcome(
            mkfs_sb_read(opts, c),
            InodeBtreeKind::Finobt,
            "finobt root",
            Ok::<Seq<u8>, crate::error::DeviceError>(mkfs_writes(opts)[mkfs_write_index(agno, 7)].1),
            r,
        ),
    ensures
        crate::reader::ag_block_place(mkfs_sb_read(opts, c), agno, mkfs_agi_of(opts, agno).free_root)
            == Some(mkfs_writes(opts)[mkfs_write_index(agno, 7)].0),
        r == Ok::<InodeBtreeRoot, crate::error::ReadError>(
            InodeBtreeRoot {
                kind: InodeBtreeKind::Finobt,
                crc: le32(mkfs_writes(opts)[mkfs_write_index(agno, 7)].1, XFS_BTREE_SBLOCK_CRC_OFF as int),
                ..mkfs_btree_root_of(opts, agno, 7, XFS_FIBT_CRC_MAGIC)
            },
        ),
{
    lemma_plan_len(opts, agno);
    lemma_mkfs_write_of(opts, agno, 7);
    lemma_mkfs_places(opts, agno, c);
    let s = mkfs_writes(opts)[mkfs_write_index(agno, 7)].1;
    let e = InodeBtreeRoot {
        kind: InodeBtreeKind::Finobt,
        crc: le32(s, XFS_BTREE_SBLOCK_CRC_OFF as int),
        ..mkfs_btree_root_of(opts, agno, 7, XFS_FIBT_CRC_MAGIC)
    };
    assert(inobt_error(s, InodeBtreeKind::Finobt, true) is None && inobt_decodes_to(s, InodeBtreeKind::Finobt, e)
        && xfs_crc_ok(s, XFS_BTREE_SBLOCK_CRC_OFF as int)) by {
        lemma_mkfs_plan_inode_trees(opts, agno);
        lemma_mkfs_plan_tree_roots(opts, agno);
    }
    assert(mkfs_sb_read(opts, c).version == 5);
    if let Ok(a) = r {
        crate::on_disk::inobt::lemma_inobt_decode_unique(s, InodeBtreeKind::Finobt, a, e);
    }
}

/// What `mkfs` writes, `read_inode` reads back: holding the superblock `mkfs`
/// wrote, the reader looks for the root directory inode where `mkfs` wrote
/// it, and from a device that answers with those bytes it returns the inode
/// that `mkfs` laid out, with the checksum it carries.
pub proof fn lemma_mkfs_root_inode_read_back(
    opts: MkfsOptions,
    c: u32,
    scratch: Seq<u8>,
    r: Result<Inode, crate::error::ReadError>,
)
    requires
        mkfs_options_ok(opts),
        mkfs_ag_count(opts) > 0,
        inode_outcome(
            mkfs_sb_read(opts, c),
            Ok::<Seq<u8>, crate::error::DeviceError>(mkfs_writes(opts)[mkfs_write_index(0, 8)].1),
            scratch,
            r,
        ),
    ensures
        inode_location(mkfs_sb_read(opts, c), mkfs_rootino(opts)) == Some(
            mkfs_writes(opts)[mkfs_write_index(0, 8)].0 as int,
        ),
        r == Ok::<Inode, crate::error::ReadError>(
            Inode {
                crc: le32(mkfs_writes(opts)[mkfs_write_index(0, 8)].1, XFS_DINODE_CRC_OFF as int),
                ..mkfs_root_inode_of(opts)
            },
        ),
{
    lemma_plan_len(opts, 0);
    lemma_mkfs_write_of(opts, 0, 8);
    lemma_mkfs_root_inode_found(opts);
    let sb = mkfs_sb_read(opts, c);
    assert(inode_location(sb, mkfs_rootino(opts)) == inode_location(mkfs_superblock_of(opts), mkfs_rootino(opts)))
        by {
        assert(ag_start_of(sb, 0) == ag_start_of(mkfs_superblock_of(opts), 0));
    }
    let s = mkfs_writes(opts)[mkfs_write_index(0, 8)].1;
    let e = Inode { crc: le32(s, XFS_DINODE_CRC_OFF as int), ..mkfs_root_inode_of(opts) };
    assert(inode_error(s) is None && inode_decodes_to(s, e) && xfs_crc_ok(s, XFS_DINODE_CRC_OFF as int)) by {
        lemma_mkfs_plan_root_inode(opts);
    }
    assert(sb.version == 5);
    if let Ok(a) = r {
        crate::on_disk::inode::lemma_inode_decode_unique(s, a, e);
    }
}

} // verus!
