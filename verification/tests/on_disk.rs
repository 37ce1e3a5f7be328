use xfs::error::ParseError;
use xfs::on_disk::agf::{Agf, XFS_AGF_MAGIC, XFS_AGF_SIZE, XFS_AGF_VERSION};
use xfs::on_disk::agfl::{Agfl, XFS_AGFL_HEADER_SIZE, XFS_AGFL_MAGIC};
use xfs::on_disk::agi::{Agi, XFS_AGI_MAGIC, XFS_AGI_SIZE, XFS_AGI_VERSION};
use xfs::on_disk::inobt::{InodeBtreeKind, InodeBtreeRoot, XFS_BTREE_SBLOCK_CRC_LEN, XFS_IBT_CRC_MAGIC};
use xfs::on_disk::superblock::{
    Superblock, XFS_DSB_SIZE, XFS_SB_FEAT_INCOMPAT_BIGTIME, XFS_SB_FEAT_RO_COMPAT_RMAPBT,
    XFS_SB_MAGIC, XFS_SB_VERSION_5,
};

fn put_be16(buf: &mut [u8], off: usize, value: u16) {
    buf[off..off + 2].copy_from_slice(&value.to_be_bytes());
}
fn put_be32(buf: &mut [u8], off: usize, value: u32) {
    buf[off..off + 4].copy_from_slice(&value.to_be_bytes());
}
fn put_be64(buf: &mut [u8], off: usize, value: u64) {
    buf[off..off + 8].copy_from_slice(&value.to_be_bytes());
}
fn put_le32(buf: &mut [u8], off: usize, value: u32) {
    buf[off..off + 4].copy_from_slice(&value.to_le_bytes());
}

#[test]
fn parse_valid_agf() {
    let mut raw = [0u8; XFS_AGF_SIZE];
    put_be32(&mut raw, 0, XFS_AGF_MAGIC);
    put_be32(&mut raw, 4, XFS_AGF_VERSION);
    put_be32(&mut raw, 8, 3);
    put_be32(&mut raw, 12, 262_144);
    put_be32(&mut raw, 52, 1234);
    put_be64(&mut raw, 208, 0x55aa);
    put_be32(&mut raw, 216, 0xface_cafe);

    let agf = Agf::parse(&raw).expect("agf should parse");
    assert_eq!(agf.seqno, 3);
    assert_eq!(agf.length, 262_144);
    assert_eq!(agf.freeblks, 1234);
    assert_eq!(agf.lsn, 0x55aa);
    assert_eq!(agf.crc, 0xface_cafe);
}

#[test]
fn rejects_bad_version() {
    let mut raw = [0u8; XFS_AGF_SIZE];
    put_be32(&mut raw, 0, XFS_AGF_MAGIC);
    put_be32(&mut raw, 4, 99);
    let err = Agf::parse(&raw).expect_err("version should fail");
    assert!(matches!(err, ParseError::UnsupportedVersion(99)));
}

#[test]
fn parse_agfl_header() {
    let mut raw = [0u8; 512];
    put_be32(&mut raw, 0, XFS_AGFL_MAGIC);
    put_be32(&mut raw, 4, 7);
    put_be64(&mut raw, 24, 0x1234);
    put_be32(&mut raw, 32, 0xabcd_ef01);
    let agfl = Agfl::parse(&raw, 512, true).expect("agfl parse");
    assert_eq!(agfl.seqno, 7);
    assert_eq!(agfl.lsn, 0x1234);
    assert_eq!(
        agfl.entries_total,
        u32::try_from(512 - XFS_AGFL_HEADER_SIZE).expect("agfl entries_total") / 4,
    );
}

#[test]
fn parse_valid_agi() {
    let mut raw = [0u8; XFS_AGI_SIZE];
    put_be32(&mut raw, 0, XFS_AGI_MAGIC);
    put_be32(&mut raw, 4, XFS_AGI_VERSION);
    put_be32(&mut raw, 8, 2);
    put_be32(&mut raw, 12, 262_144);
    put_be32(&mut raw, 16, 1000);
    put_be32(&mut raw, 20, 8);
    put_be32(&mut raw, 24, 3);
    put_be32(&mut raw, 28, 150);
    put_be32(&mut raw, 40, 55);
    put_be64(&mut raw, 320, 0x1234);
    put_be32(&mut raw, 328, 9);
    put_be32(&mut raw, 332, 2);
    put_be32(&mut raw, 336, 77);
    put_be32(&mut raw, 340, 11);

    let agi = Agi::parse(&raw).expect("agi should parse");
    assert_eq!(agi.seqno, 2);
    assert_eq!(agi.length, 262_144);
    assert_eq!(agi.count, 1000);
    assert_eq!(agi.freecount, 150);
    assert_eq!(agi.unlinked[0], 55);
    assert_eq!(agi.free_root, 9);
    assert_eq!(agi.iblocks, 77);
    assert_eq!(agi.fblocks, 11);
}

#[test]
fn rejects_invalid_magic() {
    let raw = [0u8; XFS_AGI_SIZE];
    let err = Agi::parse(&raw).expect_err("magic should fail");
    assert!(matches!(err, ParseError::InvalidMagic { .. }));
}

#[test]
fn rejects_invalid_version() {
    let mut raw = [0u8; XFS_AGI_SIZE];
    put_be32(&mut raw, 0, XFS_AGI_MAGIC);
    put_be32(&mut raw, 4, 2);
    let err = Agi::parse(&raw).expect_err("version should fail");
    assert!(matches!(err, ParseError::UnsupportedVersion(2)));
}

#[test]
fn agi_rejects_short_buffer() {
    let raw = [0u8; XFS_AGI_SIZE - 1];
    let err = Agi::parse(&raw).expect_err("short read should fail");
    assert!(matches!(err, ParseError::BufferTooSmall { .. }));
}

#[test]
fn inobt_parse_inobt_crc_header() {
    let mut raw = [0u8; XFS_BTREE_SBLOCK_CRC_LEN];
    put_be32(&mut raw, 0, XFS_IBT_CRC_MAGIC);
    put_be16(&mut raw, 4, 1);
    put_be16(&mut raw, 6, 3);
    put_be32(&mut raw, 8, 0xffff_ffff);
    put_be32(&mut raw, 12, 2);
    put_be32(&mut raw, 48, 0);
    let root = InodeBtreeRoot::parse(&raw, InodeBtreeKind::Inobt, true).expect("parse");
    assert_eq!(root.level, 1);
    assert_eq!(root.numrecs, 3);
    assert_eq!(root.rightsib, 2);
}

#[test]
fn parse_v5_superblock() {
    let mut raw = [0u8; XFS_DSB_SIZE];
    put_be32(&mut raw, 0, XFS_SB_MAGIC);
    put_be32(&mut raw, 4, 4096);
    put_be64(&mut raw, 8, 1_000_000);
    put_be32(&mut raw, 84, 262_144);
    put_be32(&mut raw, 88, 4);
    put_be16(&mut raw, 100, XFS_SB_VERSION_5);
    put_be16(&mut raw, 102, 512);
    put_be16(&mut raw, 104, 512);
    raw[108..112].copy_from_slice(b"test");
    put_be32(&mut raw, 212, XFS_SB_FEAT_RO_COMPAT_RMAPBT);
    put_be32(&mut raw, 216, XFS_SB_FEAT_INCOMPAT_BIGTIME);
    put_le32(&mut raw, 224, 0x1234_5678);
    put_be64(&mut raw, 296, 12_345);

    let sb = Superblock::parse(&raw).expect("superblock should parse");
    assert!(sb.is_v5());
    assert_eq!(sb.block_size, 4096);
    assert_eq!(sb.ag_count, 4);
    assert!(sb.has_ro_compat_feature(XFS_SB_FEAT_RO_COMPAT_RMAPBT));
    assert!(sb.has_incompat_feature(XFS_SB_FEAT_INCOMPAT_BIGTIME));
    assert_eq!(sb.v5.expect("v5 fields").crc, 0x1234_5678);
}

#[test]
fn rejects_bad_magic() {
    let raw = [0u8; XFS_DSB_SIZE];
    let err = Superblock::parse(&raw).expect_err("bad magic should fail");
    assert!(matches!(err, ParseError::InvalidMagic { .. }));
}

#[test]
fn superblock_rejects_short_buffer() {
    let raw = [0u8; XFS_DSB_SIZE - 1];
    let err = Superblock::parse(&raw).expect_err("short buffer should fail");
    assert!(matches!(err, ParseError::BufferTooSmall { .. }));
}
