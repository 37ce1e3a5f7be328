//! The superblock: the geometry and feature set of the filesystem, stored at
//! the start of every allocation group.
use crate::endian::{
    be16, be32, be64, be_u16, be_u32, be_u64, copy_out, group_byte_codec, le32, le_u32, put_be16,
    put_be32, put_be64, put_bytes, put_u8, with_be16, with_be32, with_be64, with_bytes, with_u8,
};
use crate::error::ParseError;
use vstd::prelude::*;

verus! {

broadcast use group_byte_codec;

/// The magic number of a superblock ("XFSB").
pub const XFS_SB_MAGIC: u32 = 0x5846_5342;

/// The superblock version with checksums and feature words.
pub const XFS_SB_VERSION_5: u16 = 5;

/// Read-only compatible feature: free inode B+trees.
pub const XFS_SB_FEAT_RO_COMPAT_FINOBT: u32 = 1;

/// Read-only compatible feature: reverse-mapping B+trees.
pub const XFS_SB_FEAT_RO_COMPAT_RMAPBT: u32 = 2;

/// Read-only compatible feature: reflinked files.
pub const XFS_SB_FEAT_RO_COMPAT_REFLINK: u32 = 4;

/// Read-only compatible feature: inode B+tree block counts in the AGI.
pub const XFS_SB_FEAT_RO_COMPAT_INOBTCNT: u32 = 8;

/// Incompatible feature: directory entries carry a file type.
pub const XFS_SB_FEAT_INCOMPAT_FTYPE: u32 = 1;

/// Incompatible feature: sparse inode chunks.
pub const XFS_SB_FEAT_INCOMPAT_SPINODES: u32 = 2;

/// Incompatible feature: metadata carries its own UUID.
pub const XFS_SB_FEAT_INCOMPAT_META_UUID: u32 = 4;

/// Incompatible feature: timestamps beyond 2038.
pub const XFS_SB_FEAT_INCOMPAT_BIGTIME: u32 = 8;

/// Incompatible feature: the filesystem needs repair.
pub const XFS_SB_FEAT_INCOMPAT_NEEDSREPAIR: u32 = 16;

/// The size of the superblock fields this library reads.
pub const XFS_DSB_SIZE: usize = 304;

/// The offset of the checksum in a superblock.
pub const XFS_SB_CRC_OFF: usize = 224;

/// The fields that only version 5 superblocks carry.
#[derive(Debug, Clone, Copy, PartialEq, Eq)]
pub struct V5Fields {
    pub features_compat: u32,
    pub features_ro_compat: u32,
    pub features_incompat: u32,
    pub features_log_incompat: u32,
    pub crc: u32,
    pub sparse_inode_align: u32,
    pub pquotino: u64,
    pub lsn: u64,
    pub meta_uuid: [u8; 16],
    pub metadirino: u64,
    pub rgcount: u32,
    pub rgextents: u32,
    pub rgblklog: u8,
    pub rtstart: u64,
    pub rtreserved: u64,
}

#[derive(Debug, Clone, Copy, PartialEq, Eq)]
pub struct Superblock {
    pub block_size: u32,
    pub dblocks: u64,
    pub rblocks: u64,
    pub rextents: u64,
    pub uuid: [u8; 16],
    pub logstart: u64,
    pub rootino: u64,
    pub rbmino: u64,
    pub rsumino: u64,
    pub rextsize: u32,
    pub ag_blocks: u32,
    pub ag_count: u32,
    pub rbm_blocks: u32,
    pub log_blocks: u32,
    pub version: u16,
    pub sector_size: u16,
    pub inode_size: u16,
    pub inode_per_block: u16,
    pub fname: [u8; 12],
    pub block_log: u8,
    pub sect_log: u8,
    pub inode_log: u8,
    pub inopblog: u8,
    pub agblklog: u8,
    pub rextslog: u8,
    pub inprogress: bool,
    pub imax_pct: u8,
    pub icount: u64,
    pub ifree: u64,
    pub fdblocks: u64,
    pub frextents: u64,
    pub uquotino: u64,
    pub gquotino: u64,
    pub qflags: u16,
    pub flags: u8,
    pub shared_vn: u8,
    pub inoalignmt: u32,
    pub unit: u32,
    pub width: u32,
    pub log_sector_size: u16,
    pub log_sunit: u32,
    pub features2: u32,
    pub bad_features2: u32,
    pub v5: Option<V5Fields>,
}

/// The version number of the superblock in `b`: the low four bits of the
/// version field.
pub open spec fn sb_version(b: Seq<u8>) -> u16 {
    (be16(b, 100) % 0x10) as u16
}

/// Why `b` does not hold a superblock, or `None` when it does.
pub open spec fn superblock_error(b: Seq<u8>) -> Option<ParseError> {
    if b.len() < XFS_DSB_SIZE {
        Some(ParseError::BufferTooSmall { expected: XFS_DSB_SIZE, actual: b.len() as usize })
    } else if be32(b, 0) != XFS_SB_MAGIC {
        Some(ParseError::InvalidMagic { expected: XFS_SB_MAGIC, actual: be32(b, 0) })
    } else if be32(b, 4) == 0 {
        Some(ParseError::InvalidField { field: "sb_blocksize", value: 0 })
    } else if be16(b, 102) == 0 {
        Some(ParseError::InvalidField { field: "sb_sectsize", value: 0 })
    } else if be16(b, 104) == 0 {
        Some(ParseError::InvalidField { field: "sb_inodesize", value: 0 })
    } else {
        None
    }
}

/// `v` holds the version 5 fields of the superblock in `b`.
pub open spec fn v5_decodes_to(b: Seq<u8>, v: V5Fields) -> bool {
    &&& v.features_compat == be32(b, 208)
    &&& v.features_ro_compat == be32(b, 212)
    &&& v.features_incompat == be32(b, 216)
    &&& v.features_log_incompat == be32(b, 220)
    &&& v.crc == le32(b, 224)
    &&& v.sparse_inode_align == be32(b, 228)
    &&& v.pquotino == be64(b, 232)
    &&& v.lsn == be64(b, 240)
    &&& v.meta_uuid@ == b.subrange(248, 264)
    &&& v.metadirino == be64(b, 264)
    &&& v.rgcount == be32(b, 272)
    &&& v.rgextents == be32(b, 276)
    &&& v.rgblklog == b[280]
    &&& v.rtstart == be64(b, 288)
    &&& v.rtreserved == be64(b, 296)
}

/// `sb` holds the superblock stored in `b`; the version 5 fields are present
/// exactly when the version is 5.
pub open spec fn superblock_decodes_to(b: Seq<u8>, sb: Superblock) -> bool {
    &&& sb.block_size == be32(b, 4)
    &&& sb.dblocks == be64(b, 8)
    &&& sb.rblocks == be64(b, 16)
    &&& sb.rextents == be64(b, 24)
    &&& sb.uuid@ == b.subrange(32, 48)
    &&& sb.logstart == be64(b, 48)
    &&& sb.rootino == be64(b, 56)
    &&& sb.rbmino == be64(b, 64)
    &&& sb.rsumino == be64(b, 72)
    &&& sb.rextsize == be32(b, 80)
    &&& sb.ag_blocks == be32(b, 84)
    &&& sb.ag_count == be32(b, 88)
    &&& sb.rbm_blocks == be32(b, 92)
    &&& sb.log_blocks == be32(b, 96)
    &&& sb.version == sb_version(b)
    &&& sb.sector_size == be16(b, 102)
    &&& sb.inode_size == be16(b, 104)
    &&& sb.inode_per_block == be16(b, 106)
    &&& sb.fname@ == b.subrange(108, 120)
    &&& sb.block_log == b[120]
    &&& sb.sect_log == b[121]
    &&& sb.inode_log == b[122]
    &&& sb.inopblog == b[123]
    &&& sb.agblklog == b[124]
    &&& sb.rextslog == b[125]
    &&& sb.inprogress == (b[126] != 0)
    &&& sb.imax_pct == b[127]
    &&& sb.icount == be64(b, 128)
    &&& sb.ifree == be64(b, 136)
    &&& sb.fdblocks == be64(b, 144)
    &&& sb.frextents == be64(b, 152)
    &&& sb.uquotino == be64(b, 160)
    &&& sb.gquotino == be64(b, 168)
    &&& sb.qflags == be16(b, 176)
    &&& sb.flags == b[178]
    &&& sb.shared_vn == b[179]
    &&& sb.inoalignmt == be32(b, 180)
    &&& sb.unit == be32(b, 184)
    &&& sb.width == be32(b, 188)
    &&& sb.log_sector_size == be16(b, 194)
    &&& sb.log_sunit == be32(b, 196)
    &&& sb.features2 == be32(b, 200)
    &&& sb.bad_features2 == be32(b, 204)
    &&& match sb.v5 {
        Some(v) => sb_version(b) == XFS_SB_VERSION_5 && v5_decodes_to(b, v),
        None => sb_version(b) != XFS_SB_VERSION_5,
    }
}

/// The image of `sb` over `b[0..100]`.
#[verifier::opaque]
pub open spec fn sb_image_geometry(sb: Superblock, b: Seq<u8>) -> Seq<u8> {
    let s = with_be32(b, 0, XFS_SB_MAGIC);
    let s = with_be32(s, 4, sb.block_size);
    let s = with_be64(s, 8, sb.dblocks);
    let s = with_be64(s, 16, sb.rblocks);
    let s = with_be64(s, 24, sb.rextents);
    let s = with_bytes(s, 32, sb.uuid@);
    let s = with_be64(s, 48, sb.logstart);
    let s = with_be64(s, 56, sb.rootino);
    let s = with_be64(s, 64, sb.rbmino);
    let s = with_be64(s, 72, sb.rsumino);
    let s = with_be32(s, 80, sb.rextsize);
    let s = with_be32(s, 84, sb.ag_blocks);
    let s = with_be32(s, 88, sb.ag_count);
    let s = with_be32(s, 92, sb.rbm_blocks);
    with_be32(s, 96, sb.log_blocks)
}

/// The image of `sb` over `b[100..128]`.
#[verifier::opaque]
pub open spec fn sb_image_sizes(sb: Superblock, b: Seq<u8>) -> Seq<u8> {
    let s = with_be16(b, 100, sb.version);
    let s = with_be16(s, 102, sb.sector_size);
    let s = with_be16(s, 104, sb.inode_size);
    let s = with_be16(s, 106, sb.inode_per_block);
    let s = with_bytes(s, 108, sb.fname@);
    let s = with_u8(s, 120, sb.block_log);
    let s = with_u8(s, 121, sb.sect_log);
    let s = with_u8(s, 122, sb.inode_log);
    let s = with_u8(s, 123, sb.inopblog);
    let s = with_u8(s, 124, sb.agblklog);
    let s = with_u8(s, 125, sb.rextslog);
    let s = with_u8(s, 126, if sb.inprogress { 1u8 } else { 0u8 });
    with_u8(s, 127, sb.imax_pct)
}

/// The image of `sb` over `b[128..176]`.
#[verifier::opaque]
pub open spec fn sb_image_counters(sb: Superblock, b: Seq<u8>) -> Seq<u8> {
    let s = with_be64(b, 128, sb.icount);
    let s = with_be64(s, 136, sb.ifree);
    let s = with_be64(s, 144, sb.fdblocks);
    let s = with_be64(s, 152, sb.frextents);
    let s = with_be64(s, 160, sb.uquotino);
    with_be64(s, 168, sb.gquotino)
}

/// The image of `sb` over `b[176..208]`; the directory block and log sector
/// logarithms at 192 and 193 are written as zero.
#[verifier::opaque]
pub open spec fn sb_image_layout(sb: Superblock, b: Seq<u8>) -> Seq<u8> {
    let s = with_be16(b, 176, sb.qflags);
    let s = with_u8(s, 178, sb.flags);
    let s = with_u8(s, 179, sb.shared_vn);
    let s = with_be32(s, 180, sb.inoalignmt);
    let s = with_be32(s, 184, sb.unit);
    let s = with_be32(s, 188, sb.width);
    let s = with_u8(s, 192, 0);
    let s = with_u8(s, 193, 0);
    let s = with_be16(s, 194, sb.log_sector_size);
    let s = with_be32(s, 196, sb.log_sunit);
    let s = with_be32(s, 200, sb.features2);
    with_be32(s, 204, sb.bad_features2)
}

/// The image of the version 5 fields `v` over `b[208..304]`; the checksum
/// field at 224 is left as it was.
#[verifier::opaque]
pub open spec fn sb_image_v5(v: V5Fields, b: Seq<u8>) -> Seq<u8> {
    let s = with_be32(b, 208, v.features_compat);
    let s = with_be32(s, 212, v.features_ro_compat);
    let s = with_be32(s, 216, v.features_incompat);
    let s = with_be32(s, 220, v.features_log_incompat);
    let s = with_be32(s, 228, v.sparse_inode_align);
    let s = with_be64(s, 232, v.pquotino);
    let s = with_be64(s, 240, v.lsn);
    let s = with_bytes(s, 248, v.meta_uuid@);
    let s = with_be64(s, 264, v.metadirino);
    let s = with_be32(s, 272, v.rgcount);
    let s = with_be32(s, 276, v.rgextents);
    let s = with_u8(s, 280, v.rgblklog);
    let s = with_be64(s, 288, v.rtstart);
    with_be64(s, 296, v.rtreserved)
}

/// `b` after `sb` has been written over its first [`XFS_DSB_SIZE`] bytes, in
/// the order of the layout. The version 5 area (`208..304`) is written only
/// when `sb` has version 5 fields; the checksum field is never written.
pub open spec fn superblock_image(sb: Superblock, b: Seq<u8>) -> Seq<u8> {
    let s = sb_image_layout(
        sb,
        sb_image_counters(sb, sb_image_sizes(sb, sb_image_geometry(sb, b))),
    );
    match sb.v5 {
        Some(v) => sb_image_v5(v, s),
        None => s,
    }
}

/// `sb` with its version 5 checksum, if it has one, replaced by `crc`.
pub open spec fn with_sb_crc(sb: Superblock, crc: u32) -> Superblock {
    match sb.v5 {
        Some(v) => Superblock { v5: Some(V5Fields { crc, ..v }), ..sb },
        None => sb,
    }
}

proof fn lemma_sb_image_geometry(sb: Superblock, s: Seq<u8>)
    requires
        s.len() >= XFS_DSB_SIZE,
    ensures
        ({
            let h = sb_image_geometry(sb, s);
            &&& h.len() == s.len()
            &&& forall|a: int, c: int|
                100 <= a <= c <= s.len() ==> #[trigger] h.subrange(a, c) == s.subrange(a, c)
            &&& be32(h, 0) == XFS_SB_MAGIC
            &&& be32(h, 4) == sb.block_size
            &&& be64(h, 8) == sb.dblocks
            &&& be64(h, 16) == sb.rblocks
            &&& be64(h, 24) == sb.rextents
            &&& h.subrange(32, 48) == sb.uuid@
            &&& be64(h, 48) == sb.logstart
            &&& be64(h, 56) == sb.rootino
            &&& be64(h, 64) == sb.rbmino
            &&& be64(h, 72) == sb.rsumino
            &&& be32(h, 80) == sb.rextsize
            &&& be32(h, 84) == sb.ag_blocks
            &&& be32(h, 88) == sb.ag_count
            &&& be32(h, 92) == sb.rbm_blocks
            &&& be32(h, 96) == sb.log_blocks
        }),
{
    reveal(sb_image_geometry);
}

proof fn lemma_sb_image_sizes(sb: Superblock, s: Seq<u8>)
    requires
        s.len() >= XFS_DSB_SIZE,
    ensures
        ({
            let h = sb_image_sizes(sb, s);
            &&& h.len() == s.len()
            &&& forall|a: int, c: int|
                0 <= a <= c <= s.len() && (c <= 100 || 128 <= a) ==> #[trigger] h.subrange(a, c)
                    == s.subrange(a, c)
            &&& be16(h, 100) == sb.version
            &&& be16(h, 102) == sb.sector_size
            &&& be16(h, 104) == sb.inode_size
            &&& be16(h, 106) == sb.inode_per_block
            &&& h.subrange(108, 120) == sb.fname@
            &&& h.subrange(120, 121)[0] == sb.block_log
            &&& h.subrange(121, 122)[0] == sb.sect_log
            &&& h.subrange(122, 123)[0] == sb.inode_log
            &&& h.subrange(123, 124)[0] == sb.inopblog
            &&& h.subrange(124, 125)[0] == sb.agblklog
            &&& h.subrange(125, 126)[0] == sb.rextslog
            &&& h.subrange(126, 127)[0] == if sb.inprogress {
                1u8
            } else {
                0u8
            }
            &&& h.subrange(127, 128)[0] == sb.imax_pct
        }),
{
    broadcast use crate::endian::lemma_with_bytes_index;

    reveal(sb_image_sizes);
}

proof fn lemma_sb_image_counters(sb: Superblock, s: Seq<u8>)
    requires
        s.len() >= XFS_DSB_SIZE,
    ensures
        ({
            let h = sb_image_counters(sb, s);
            &&& h.len() == s.len()
            &&& forall|a: int, c: int|
                0 <= a <= c <= s.len() && (c <= 128 || 176 <= a) ==> #[trigger] h.subrange(a, c)
                    == s.subrange(a, c)
            &&& be64(h, 128) == sb.icount
            &&& be64(h, 136) == sb.ifree
            &&& be64(h, 144) == sb.fdblocks
            &&& be64(h, 152) == sb.frextents
            &&& be64(h, 160) == sb.uquotino
            &&& be64(h, 168) == sb.gquotino
        }),
{
    reveal(sb_image_counters);
}

proof fn lemma_sb_image_layout(sb: Superblock, s: Seq<u8>)
    requires
        s.len() >= XFS_DSB_SIZE,
    ensures
        ({
            let h = sb_image_layout(sb, s);
            &&& h.len() == s.len()
            &&& forall|a: int, c: int|
                0 <= a <= c <= s.len() && (c <= 176 || 208 <= a) ==> #[trigger] h.subrange(a, c)
                    == s.subrange(a, c)
            &&& be16(h, 176) == sb.qflags
            &&& h.subrange(178, 179)[0] == sb.flags
            &&& h.subrange(179, 180)[0] == sb.shared_vn
            &&& be32(h, 180) == sb.inoalignmt
            &&& be32(h, 184) == sb.unit
            &&& be32(h, 188) == sb.width
            &&& be16(h, 194) == sb.log_sector_size
            &&& be32(h, 196) == sb.log_sunit
            &&& be32(h, 200) == sb.features2
            &&& be32(h, 204) == sb.bad_features2
        }),
{
    broadcast use crate::endian::lemma_with_bytes_index;

    reveal(sb_image_layout);
}

proof fn lemma_sb_image_v5(v: V5Fields, s: Seq<u8>)
    requires
        s.len() >= XFS_DSB_SIZE,
    ensures
        ({
            let h = sb_image_v5(v, s);
            &&& h.len() == s.len()
            &&& forall|a: int, c: int|
                0 <= a <= c <= s.len() && (c <= 208 || 304 <= a || (224 <= a && c <= 228))
                    ==> #[trigger] h.subrange(a, c) == s.subrange(a, c)
            &&& be32(h, 208) == v.features_compat
            &&& be32(h, 212) == v.features_ro_compat
            &&& be32(h, 216) == v.features_incompat
            &&& be32(h, 220) == v.features_log_incompat
            &&& be32(h, 228) == v.sparse_inode_align
            &&& be64(h, 232) == v.pquotino
            &&& be64(h, 240) == v.lsn
            &&& h.subrange(248, 264) == v.meta_uuid@
            &&& be64(h, 264) == v.metadirino
            &&& be32(h, 272) == v.rgcount
            &&& be32(h, 276) == v.rgextents
            &&& h.subrange(280, 281)[0] == v.rgblklog
            &&& be64(h, 288) == v.rtstart
            &&& be64(h, 296) == v.rtreserved
        }),
{
    broadcast use crate::endian::lemma_with_bytes_index;

    reveal(sb_image_v5);
}

/// What is written is read back: a superblock with nonzero block, sector and
/// inode sizes, a version that fits the four version bits, and version 5
/// fields exactly when its version is 5, decodes to itself; its checksum is
/// the one that the image left as `b` had it.
#[verifier::spinoff_prover]
#[verifier::rlimit(40)]
pub proof fn lemma_superblock_roundtrip(sb: Superblock, b: Seq<u8>)
    requires
        b.len() >= XFS_DSB_SIZE,
        sb.block_size != 0,
        sb.sector_size != 0,
        sb.inode_size != 0,
        sb.version < 0x10,
        sb.v5 is Some <==> sb.version == XFS_SB_VERSION_5,
    ensures
        superblock_image(sb, b).len() == b.len(),
        superblock_error(superblock_image(sb, b)) is None,
        superblock_decodes_to(superblock_image(sb, b), with_sb_crc(sb, le32(b, 224))),
{
    let g = sb_image_geometry(sb, b);
    let z = sb_image_sizes(sb, g);
    let c = sb_image_counters(sb, z);
    let l = sb_image_layout(sb, c);
    lemma_sb_image_geometry(sb, b);
    lemma_sb_image_sizes(sb, g);
    lemma_sb_image_counters(sb, z);
    lemma_sb_image_layout(sb, c);
    let img = superblock_image(sb, b);
    if let Some(v) = sb.v5 {
        lemma_sb_image_v5(v, l);
        assert(img.subrange(280, 281)[0] == img[280]);
        assert(img.subrange(224, 228) == b.subrange(224, 228));
    }
    assert(img.subrange(120, 121)[0] == img[120]);
    assert(img.subrange(121, 122)[0] == img[121]);
    assert(img.subrange(122, 123)[0] == img[122]);
    assert(img.subrange(123, 124)[0] == img[123]);
    assert(img.subrange(124, 125)[0] == img[124]);
    assert(img.subrange(125, 126)[0] == img[125]);
    assert(img.subrange(126, 127)[0] == img[126]);
    assert(img.subrange(127, 128)[0] == img[127]);
    assert(img.subrange(178, 179)[0] == img[178]);
    assert(img.subrange(179, 180)[0] == img[179]);
}

/// Decoding is deterministic: bytes decode to at most one superblock.
pub proof fn lemma_superblock_decode_unique(b: Seq<u8>, x: Superblock, y: Superblock)
    requires
        superblock_decodes_to(b, x),
        superblock_decodes_to(b, y),
    ensures
        x == y,
{
    broadcast use vstd::array::axiom_array_ext_equal, vstd::array::lemma_array_index;

    assert(x.uuid =~= y.uuid);
    assert(x.fname =~= y.fname);
    if let Some(vx) = x.v5 {
        if let Some(vy) = y.v5 {
            assert(vx.meta_uuid =~= vy.meta_uuid);
            assert(vx == vy);
        }
    }
}

/// Decoding reads only the first [`XFS_DSB_SIZE`] bytes: any longer prefix of
/// the bytes decodes as they do.
pub proof fn lemma_superblock_decode_prefix(b: Seq<u8>, n: int, x: Superblock)
    requires
        XFS_DSB_SIZE <= n <= b.len(),
        superblock_decodes_to(b, x),
    ensures
        superblock_decodes_to(b.subrange(0, n), x),
        superblock_error(b.subrange(0, n)) == superblock_error(b),
{
    let p = b.subrange(0, n);
    assert forall|a: int, c: int| 0 <= a <= c <= n implies #[trigger] p.subrange(a, c) == b.subrange(a, c) by {
        assert(p.subrange(a, c) =~= b.subrange(a, c));
    }
    assert forall|i: int| 0 <= i < n implies #[trigger] p[i] == b[i] by {}
}

/// The version of a decoded superblock is the low four bits of the byte at
/// offset 101, the low byte of the big-endian version field; the feature bits
/// above them do not change it. Every superblock whose version field has low
/// bits 5 decodes as version 5, with its version 5 fields.
pub proof fn lemma_superblock_version_bits(b: Seq<u8>, sb: Superblock)
    requires
        b.len() >= 102,
        superblock_decodes_to(b, sb),
    ensures
        sb.version == b[101] % 16,
        b[101] % 16 == 5 ==> sb.version == XFS_SB_VERSION_5,
        b[101] % 16 == 5 ==> (sb.v5 matches Some(v) && v5_decodes_to(b, v)),
{
    let d = b.subrange(100, 102);
    assert(d[0] == b[100] && d[1] == b[101]);
    let x = b[100] as int;
    let y = b[101] as int;
    assert(be16(b, 100) == x * 0x100 + y);
    assert((x * 0x100 + y) % 0x10 == y % 16) by (nonlinear_arith)
        requires
            0 <= x,
            0 <= y,
    ;
}

/// Some bit of `feature` is set among the incompatible features of `sb`.
pub open spec fn sb_has_incompat(sb: Superblock, feature: u32) -> bool {
    match sb.v5 {
        Some(v) => v.features_incompat & feature != 0,
        None => false,
    }
}

impl Superblock {
    /// Decodes a superblock from the first [`XFS_DSB_SIZE`] bytes of `bytes`.
    ///
    /// # Errors
    ///
    /// * [`ParseError::BufferTooSmall`] - fewer than [`XFS_DSB_SIZE`] bytes.
    /// * [`ParseError::InvalidMagic`] - the magic number is not [`XFS_SB_MAGIC`].
    /// * [`ParseError::InvalidField`] - the block size, sector size or inode
    ///   size is zero.
    pub fn parse(bytes: &[u8]) -> (r: Result<Self, ParseError>)
        ensures
            match r {
                Ok(sb) => superblock_error(bytes@) is None && superblock_decodes_to(bytes@, sb),
                Err(e) => superblock_error(bytes@) == Some(e),
            },
    {
        if bytes.len() < XFS_DSB_SIZE {
            return Err(ParseError::BufferTooSmall { expected: XFS_DSB_SIZE, actual: bytes.len() });
        }
        let magic = be_u32(bytes, 0);
        if magic != XFS_SB_MAGIC {
            return Err(ParseError::InvalidMagic { expected: XFS_SB_MAGIC, actual: magic });
        }
        let mut uuid = [0u8; 16];
        copy_out(&mut uuid, bytes, 32);
        let mut fname = [0u8; 12];
        copy_out(&mut fname, bytes, 108);
        let version = be_u16(bytes, 100) % 0x10;
        let block_size = be_u32(bytes, 4);
        let sector_size = be_u16(bytes, 102);
        let inode_size = be_u16(bytes, 104);
        if block_size == 0 {
            return Err(ParseError::InvalidField { field: "sb_blocksize", value: block_size as u64 });
        }
        if sector_size == 0 {
            return Err(ParseError::InvalidField { field: "sb_sectsize", value: sector_size as u64 });
        }
        if inode_size == 0 {
            return Err(
                ParseError::InvalidField { field: "sb_inodesize", value: inode_size as u64 },
            );
        }
        let v5 = if version == XFS_SB_VERSION_5 {
            let mut meta_uuid = [0u8; 16];
            copy_out(&mut meta_uuid, bytes, 248);
            Some(
                V5Fields {
                    features_compat: be_u32(bytes, 208),
                    features_ro_compat: be_u32(bytes, 212),
                    features_incompat: be_u32(bytes, 216),
                    features_log_incompat: be_u32(bytes, 220),
                    crc: le_u32(bytes, 224),
                    sparse_inode_align: be_u32(bytes, 228),
                    pquotino: be_u64(bytes, 232),
                    lsn: be_u64(bytes, 240),
                    meta_uuid,
                    metadirino: be_u64(bytes, 264),
                    rgcount: be_u32(bytes, 272),
                    rgextents: be_u32(bytes, 276),
                    rgblklog: bytes[280],
                    rtstart: be_u64(bytes, 288),
                    rtreserved: be_u64(bytes, 296),
                },
            )
        } else {
            None
        };
        Ok(
            Self {
                block_size,
                dblocks: be_u64(bytes, 8),
                rblocks: be_u64(bytes, 16),
                rextents: be_u64(bytes, 24),
                uuid,
                logstart: be_u64(bytes, 48),
                rootino: be_u64(bytes, 56),
                rbmino: be_u64(bytes, 64),
                rsumino: be_u64(bytes, 72),
                rextsize: be_u32(bytes, 80),
                ag_blocks: be_u32(bytes, 84),
                ag_count: be_u32(bytes, 88),
                rbm_blocks: be_u32(bytes, 92),
                log_blocks: be_u32(bytes, 96),
                version,
                sector_size,
                inode_size,
                inode_per_block: be_u16(bytes, 106),
                fname,
                block_log: bytes[120],
                sect_log: bytes[121],
                inode_log: bytes[122],
                inopblog: bytes[123],
                agblklog: bytes[124],
                rextslog: bytes[125],
                inprogress: bytes[126] != 0,
                imax_pct: bytes[127],
                icount: be_u64(bytes, 128),
                ifree: be_u64(bytes, 136),
                fdblocks: be_u64(bytes, 144),
                frextents: be_u64(bytes, 152),
                uquotino: be_u64(bytes, 160),
                gquotino: be_u64(bytes, 168),
                qflags: be_u16(bytes, 176),
                flags: bytes[178],
                shared_vn: bytes[179],
                inoalignmt: be_u32(bytes, 180),
                unit: be_u32(bytes, 184),
                width: be_u32(bytes, 188),
                log_sector_size: be_u16(bytes, 194),
                log_sunit: be_u32(bytes, 196),
                features2: be_u32(bytes, 200),
                bad_features2: be_u32(bytes, 204),
                v5,
            },
        )
    }

    /// The superblock is of version 5 (the version with checksums).
    #[must_use]
    pub fn is_v5(&self) -> (r: bool)
        ensures
            r == (self.version == XFS_SB_VERSION_5),
    {
        self.version == XFS_SB_VERSION_5
    }

    /// Some bit of `feature` is set among the incompatible features; a
    /// superblock without version 5 fields has none.
    #[must_use]
    pub fn has_incompat_feature(&self, feature: u32) -> (r: bool)
        ensures
            r == sb_has_incompat(*self, feature),
    {
        match self.v5 {
            Some(v) => (v.features_incompat & feature) != 0,
            None => false,
        }
    }

    /// Some bit of `feature` is set among the read-only compatible features; a
    /// superblock without version 5 fields has none.
    #[must_use]
    pub fn has_ro_compat_feature(&self, feature: u32) -> (r: bool)
        ensures
            r == match self.v5 {
                Some(v) => v.features_ro_compat & feature != 0,
                None => false,
            },
    {
        match self.v5 {
            Some(v) => (v.features_ro_compat & feature) != 0,
            None => false,
        }
    }

    /// The read-only compatible and the incompatible feature words; a
    /// superblock without version 5 fields has neither feature set.
    pub fn feature_words(&self) -> (r: (u32, u32))
        ensures
            r == match self.v5 {
                Some(v) => (v.features_ro_compat, v.features_incompat),
                None => (0u32, 0u32),
            },
    {
        match self.v5 {
            Some(v) => (v.features_ro_compat, v.features_incompat),
            None => (0, 0),
        }
    }

    fn put_geometry(&self, bytes: &mut [u8])
        requires
            old(bytes)@.len() >= XFS_DSB_SIZE,
        ensures
            final(bytes)@ == sb_image_geometry(*self, old(bytes)@),
            final(bytes)@.len() == old(bytes)@.len(),
    {
        put_be32(bytes, 0, XFS_SB_MAGIC);
        put_be32(bytes, 4, self.block_size);
        put_be64(bytes, 8, self.dblocks);
        put_be64(bytes, 16, self.rblocks);
        put_be64(bytes, 24, self.rextents);
        put_bytes(bytes, 32, self.uuid.as_slice());
        put_be64(bytes, 48, self.logstart);
        put_be64(bytes, 56, self.rootino);
        put_be64(bytes, 64, self.rbmino);
        put_be64(bytes, 72, self.rsumino);
        put_be32(bytes, 80, self.rextsize);
        put_be32(bytes, 84, self.ag_blocks);
        put_be32(bytes, 88, self.ag_count);
        put_be32(bytes, 92, self.rbm_blocks);
        put_be32(bytes, 96, self.log_blocks);
        proof {
            reveal(sb_image_geometry);
        }
    }

    fn put_sizes(&self, bytes: &mut [u8])
        requires
            old(bytes)@.len() >= XFS_DSB_SIZE,
        ensures
            final(bytes)@ == sb_image_sizes(*self, old(bytes)@),
            final(bytes)@.len() == old(bytes)@.len(),
    {
        put_be16(bytes, 100, self.version);
        put_be16(bytes, 102, self.sector_size);
        put_be16(bytes, 104, self.inode_size);
        put_be16(bytes, 106, self.inode_per_block);
        put_bytes(bytes, 108, self.fname.as_slice());
        put_u8(bytes, 120, self.block_log);
        put_u8(bytes, 121, self.sect_log);
        put_u8(bytes, 122, self.inode_log);
        put_u8(bytes, 123, self.inopblog);
        put_u8(bytes, 124, self.agblklog);
        put_u8(bytes, 125, self.rextslog);
        put_u8(
            bytes,
            126,
            if self.inprogress {
                1
            } else {
                0
            },
        );
        put_u8(bytes, 127, self.imax_pct);
        proof {
            reveal(sb_image_sizes);
        }
    }

    fn put_counters(&self, bytes: &mut [u8])
        requires
            old(bytes)@.len() >= XFS_DSB_SIZE,
        ensures
            final(bytes)@ == sb_image_counters(*self, old(bytes)@),
            final(bytes)@.len() == old(bytes)@.len(),
    {
        put_be64(bytes, 128, self.icount);
        put_be64(bytes, 136, self.ifree);
        put_be64(bytes, 144, self.fdblocks);
        put_be64(bytes, 152, self.frextents);
        put_be64(bytes, 160, self.uquotino);
        put_be64(bytes, 168, self.gquotino);
        proof {
            reveal(sb_image_counters);
        }
    }

    fn put_layout(&self, bytes: &mut [u8])
        requires
            old(bytes)@.len() >= XFS_DSB_SIZE,
        ensures
            final(bytes)@ == sb_image_layout(*self, old(bytes)@),
            final(bytes)@.len() == old(bytes)@.len(),
    {
        put_be16(bytes, 176, self.qflags);
        put_u8(bytes, 178, self.flags);
        put_u8(bytes, 179, self.shared_vn);
        put_be32(bytes, 180, self.inoalignmt);
        put_be32(bytes, 184, self.unit);
        put_be32(bytes, 188, self.width);
        put_u8(bytes, 192, 0);
        put_u8(bytes, 193, 0);
        put_be16(bytes, 194, self.log_sector_size);
        put_be32(bytes, 196, self.log_sunit);
        put_be32(bytes, 200, self.features2);
        put_be32(bytes, 204, self.bad_features2);
        proof {
            reveal(sb_image_layout);
        }
    }

    fn put_v5(v5: &V5Fields, bytes: &mut [u8])
        requires
            old(bytes)@.len() >= XFS_DSB_SIZE,
        ensures
            final(bytes)@ == sb_image_v5(*v5, old(bytes)@),
            final(bytes)@.len() == old(bytes)@.len(),
    {
        put_be32(bytes, 208, v5.features_compat);
        put_be32(bytes, 212, v5.features_ro_compat);
        put_be32(bytes, 216, v5.features_incompat);
        put_be32(bytes, 220, v5.features_log_incompat);
        put_be32(bytes, 228, v5.sparse_inode_align);
        put_be64(bytes, 232, v5.pquotino);
        put_be64(bytes, 240, v5.lsn);
        put_bytes(bytes, 248, v5.meta_uuid.as_slice());
        put_be64(bytes, 264, v5.metadirino);
        put_be32(bytes, 272, v5.rgcount);
        put_be32(bytes, 276, v5.rgextents);
        put_u8(bytes, 280, v5.rgblklog);
        put_be64(bytes, 288, v5.rtstart);
        put_be64(bytes, 296, v5.rtreserved);
        proof {
            reveal(sb_image_v5);
        }
    }

    /// Encodes the superblock into the first [`XFS_DSB_SIZE`] bytes. The
    /// checksum field is left for [`crate::crc::write_xfs_crc`], and so is the
    /// whole version 5 area when there are no version 5 fields.
    ///
    /// # Errors
    ///
    /// * [`ParseError::BufferTooSmall`] - fewer than [`XFS_DSB_SIZE`] bytes;
    ///   `bytes` is then left alone.
    pub fn serialize(&self, bytes: &mut [u8]) -> (r: Result<(), ParseError>)
        ensures
            final(bytes)@.len() == old(bytes)@.len(),
            match r {
                Ok(()) => old(bytes)@.len() >= XFS_DSB_SIZE && final(bytes)@ == superblock_image(
                    *self,
                    old(bytes)@,
                ),
                Err(e) => old(bytes)@.len() < XFS_DSB_SIZE && e == ParseError::BufferTooSmall {
                    expected: XFS_DSB_SIZE,
                    actual: old(bytes)@.len() as usize,
                } && final(bytes)@ == old(bytes)@,
            },
    {
        if bytes.len() < XFS_DSB_SIZE {
            return Err(ParseError::BufferTooSmall { expected: XFS_DSB_SIZE, actual: bytes.len() });
        }
        self.put_geometry(bytes);
        self.put_sizes(bytes);
        self.put_counters(bytes);
        self.put_layout(bytes);
        if let Some(v5) = &self.v5 {
            Self::put_v5(v5, bytes);
        }
        Ok(())
    }
}

} // verus!
