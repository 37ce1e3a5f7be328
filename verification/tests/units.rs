use xfs::crc::{crc32c, verify_xfs_crc, write_xfs_crc};
use xfs::endian::{be_u16, be_u32, be_u64, copy_out, fill_zero, le_u32, put_be16, put_be32, put_be64, put_bytes, put_le32, require_len};
use xfs::error::{DeviceError, ParseError, ReadError, WriteError};
use xfs::geometry::Geometry;
use xfs::on_disk::agf::{Agf, XFS_AGF_SIZE};
use xfs::on_disk::agfl::{Agfl, XFS_AGFL_MAGIC};
use xfs::on_disk::agi::Agi;
use xfs::on_disk::bmap::BmapExtent;
use xfs::on_disk::dir::{DirSfEntry, DirSfHeader};
use xfs::on_disk::inobt::{InodeBtreeKind, InodeBtreeRoot, XFS_FIBT_CRC_MAGIC, XFS_IBT_CRC_MAGIC};
use xfs::on_disk::inode::{Inode, InodeFormat};
use xfs::reader::{ag_start, ensure_sector_size, extent_to_physical_offset, inline_file_data, inode_offset, parse_extent_list, plan_extent_reads, DirEntry};
use xfs::device::transfer_step;
use xfs::vfs::{inode_to_attr, kernel_attr, readdir_entries, InodeAttr, KernelDirEntry};
use xfs::vfs::{entry_for_kernel, file_kind_of_ftype, file_kind_of_mode, find_entry, kernel_ino, map_ino, perm_of_mode, FileKind, FUSE_ROOT_ID};
use xfs::writer::{mkfs_superblock, MkfsOptions};

fn sample_sb() -> xfs::on_disk::superblock::Superblock {
    mkfs_superblock(&MkfsOptions {
        block_size: 4096,
        sector_size: 512,
        ag_blocks: 16,
        total_blocks: 48,
        uuid: [1u8; 16],
    })
}

#[test]
fn crc32c_known_value() {
    // CRC-32C of "123456789" is 0xe3069283 (seed !0, final inversion)
    assert_eq!(!crc32c(!0, b"123456789"), 0xe306_9283);
}

#[test]
fn written_crc_verifies_and_detects_changes() {
    let mut block = vec![0x5au8; 64];
    assert!(!verify_xfs_crc(&block, 8));
    write_xfs_crc(&mut block, 8);
    assert!(verify_xfs_crc(&block, 8));
    let once = block.clone();
    write_xfs_crc(&mut block, 8);
    assert_eq!(block, once);
    block[40] ^= 1;
    assert!(!verify_xfs_crc(&block, 8));
    assert!(!verify_xfs_crc(&block, 62));
}

#[test]
fn endian_helpers() {
    let mut b = vec![0u8; 16];
    put_be16(&mut b, 0, 0x1234);
    put_be32(&mut b, 2, 0xdead_beef);
    put_be64(&mut b, 6, 0x0102_0304_0506_0708);
    assert_eq!(&b[0..6], &[0x12, 0x34, 0xde, 0xad, 0xbe, 0xef]);
    assert_eq!(be_u16(&b, 0), 0x1234);
    assert_eq!(be_u32(&b, 2), 0xdead_beef);
    assert_eq!(be_u64(&b, 6), 0x0102_0304_0506_0708);
    put_le32(&mut b, 12, 0x1122_3344);
    assert_eq!(&b[12..16], &[0x44, 0x33, 0x22, 0x11]);
    assert_eq!(le_u32(&b, 12), 0x1122_3344);
    put_bytes(&mut b, 0, b"xy");
    assert_eq!(&b[0..2], b"xy");
    fill_zero(&mut b, 0, 4);
    assert_eq!(&b[0..4], &[0, 0, 0, 0]);
    let mut out = [0u8; 4];
    copy_out(&mut out, &b, 12);
    assert_eq!(out, [0x44, 0x33, 0x22, 0x11]);
    assert_eq!(require_len(&b, 16), Ok(()));
    assert_eq!(require_len(&b, 17), Err(ParseError::BufferTooSmall { expected: 17, actual: 16 }));
}

#[test]
fn agf_serialize_parse_roundtrip() {
    let agf = Agf {
        seqno: 3,
        length: 1000,
        bno_root: 4,
        cnt_root: 5,
        rmap_root: 6,
        bno_level: 1,
        cnt_level: 2,
        rmap_level: 3,
        flfirst: 7,
        fllast: 8,
        flcount: 9,
        freeblks: 900,
        longest: 800,
        btreeblks: 11,
        uuid: [9u8; 16],
        rmap_blocks: 12,
        refcount_blocks: 13,
        refcount_root: 14,
        refcount_level: 15,
        lsn: 0x1234_5678_9abc,
        crc: 0,
    };
    let mut buf = vec![0xffu8; 512];
    agf.serialize(&mut buf).expect("serialize");
    assert_eq!(Agf::parse(&buf).expect("parse"), Agf { crc: 0xffff_ffff, ..agf });
    let mut short = vec![0u8; XFS_AGF_SIZE - 1];
    assert_eq!(
        agf.serialize(&mut short),
        Err(ParseError::BufferTooSmall { expected: XFS_AGF_SIZE, actual: XFS_AGF_SIZE - 1 })
    );
}

#[test]
fn agi_serialize_parse_roundtrip() {
    let mut unlinked = [0xffff_ffffu32; 64];
    unlinked[5] = 42;
    let agi = Agi {
        seqno: 1,
        length: 64,
        count: 128,
        root: 6,
        level: 2,
        freecount: 3,
        newino: 99,
        dirino: 0xffff_ffff,
        unlinked,
        uuid: [4u8; 16],
        crc: 0,
        lsn: 77,
        free_root: 7,
        free_level: 1,
        iblocks: 2,
        fblocks: 1,
    };
    let mut buf = vec![0u8; 512];
    agi.serialize(&mut buf).expect("serialize");
    assert_eq!(Agi::parse(&buf).expect("parse"), agi);
}

#[test]
fn agfl_serialize_parse_roundtrip() {
    let agfl = Agfl { magicnum: 0, seqno: 2, uuid: [8u8; 16], lsn: 5, crc: 0, entries_total: 0 };
    let mut buf = vec![0u8; 512];
    agfl.serialize(&mut buf, true).expect("serialize");
    let back = Agfl::parse(&buf, 512, true).expect("parse");
    assert_eq!(back, Agfl { magicnum: XFS_AGFL_MAGIC, entries_total: (512 - 36) / 4, ..agfl });
    assert_eq!(Agfl::parse(&buf, 512, false).expect("parse").entries_total, 128);
}

#[test]
fn inobt_serialize_parse_roundtrip() {
    let root = InodeBtreeRoot {
        kind: InodeBtreeKind::Finobt,
        magic: XFS_FIBT_CRC_MAGIC,
        level: 0,
        numrecs: 3,
        leftsib: 0xffff_ffff,
        rightsib: 0xffff_ffff,
        blkno: 123,
        lsn: 0,
        uuid: [2u8; 16],
        owner: 1,
        crc: 0,
    };
    let mut buf = vec![0u8; 4096];
    root.serialize(&mut buf).expect("serialize");
    assert_eq!(InodeBtreeRoot::parse(&buf, InodeBtreeKind::Finobt, true).expect("parse"), root);
    assert_eq!(
        InodeBtreeRoot::parse(&buf, InodeBtreeKind::Inobt, true),
        Err(ParseError::InvalidMagic { expected: XFS_IBT_CRC_MAGIC, actual: XFS_FIBT_CRC_MAGIC })
    );
    assert_eq!(
        InodeBtreeRoot::parse(&buf, InodeBtreeKind::Finobt, false),
        Err(ParseError::UnsupportedVersion(4))
    );
}

#[test]
fn superblock_serialize_parse_roundtrip() {
    let sb = sample_sb();
    let mut buf = vec![0u8; 512];
    sb.serialize(&mut buf).expect("serialize");
    assert_eq!(xfs::on_disk::superblock::Superblock::parse(&buf).expect("parse"), sb);
}

#[test]
fn inode_serialize_parse_roundtrip() {
    let inode = Inode {
        magic: 0x494e,
        mode: 0x81a4,
        version: 3,
        format: InodeFormat::Extents,
        onlink: 0,
        uid: 1000,
        gid: 100,
        nlink: 1,
        projid: 0x0001_0002,
        flushiter: 0,
        atime: (-5, 10),
        mtime: (1_700_000_000, 999),
        ctime: (0, 0),
        size: 12345,
        nblocks: 4,
        extsize: 0,
        nextents: 1,
        anextents: 0,
        forkoff: 0,
        aformat: InodeFormat::Extents,
        dmevmask: 0,
        dmstate: 0,
        flags: 0,
        generation: 7,
        next_unlinked: 0xffff_ffff,
        crc: 0,
        change_count: 2,
        lsn: 3,
        flags2: 0,
        cowextsize: 0,
        crtime: (1, 2),
        ino: 131,
        uuid: [6u8; 16],
    };
    let mut buf = vec![0u8; 512];
    inode.serialize(&mut buf).expect("serialize");
    assert_eq!(Inode::parse(&buf).expect("parse"), inode);
    assert_eq!(
        Inode::parse(&buf[..100]),
        Err(ParseError::BufferTooSmall { expected: 176, actual: 100 })
    );
    buf[0] = 0;
    assert!(matches!(Inode::parse(&buf), Err(ParseError::InvalidMagic { .. })));
}

#[test]
fn inode_format_codes() {
    assert_eq!(InodeFormat::from_u8(0), InodeFormat::Dev);
    assert_eq!(InodeFormat::from_u8(1), InodeFormat::Local);
    assert_eq!(InodeFormat::from_u8(2), InodeFormat::Extents);
    assert_eq!(InodeFormat::from_u8(3), InodeFormat::Btree);
    assert_eq!(InodeFormat::Btree.to_u8(), 3);
    assert_eq!(InodeFormat::from_u8(InodeFormat::Local.to_u8()), InodeFormat::Local);
}

#[test]
fn bmap_record_fields() {
    let hi: u64 = (1u64 << 63) | (5u64 << 9) | 1;
    let lo: u64 = (3u64 << 21) | 7;
    let mut rec = hi.to_be_bytes().to_vec();
    rec.extend_from_slice(&lo.to_be_bytes());
    let e = BmapExtent::parse(&rec).expect("parse");
    assert_eq!(e, BmapExtent { state: 1, startoff: 5, startblock: (1u64 << 43) + 3, blockcount: 7 });
    assert_eq!(
        BmapExtent::parse(&rec[..15]),
        Err(ParseError::BufferTooSmall { expected: 16, actual: 15 })
    );
}

#[test]
fn dir_header_and_entry() {
    let (h, n) = DirSfHeader::parse(&[3, 0, 0, 0, 1, 2]).expect("header");
    assert_eq!(h, DirSfHeader { count: 3, i8count: 0, parent: 0x0102 });
    assert_eq!(n, 6);
    let (h, n) = DirSfHeader::parse(&[1, 1, 0, 0, 0, 0, 0, 0, 0, 9]).expect("header");
    assert_eq!(h.parent, 9);
    assert_eq!(n, 10);
    assert_eq!(
        DirSfHeader::parse(&[1, 1, 0, 0]),
        Err(ParseError::BufferTooSmall { expected: 10, actual: 4 })
    );
    let bytes = [3, 0, 0x60, b'f', b'o', b'o', 1, 0, 0, 0, 0x45, 0xff];
    let (e, n) = DirSfEntry::parse(&bytes, 0, true).expect("entry");
    assert_eq!(e.name, "foo");
    assert_eq!(e.namelen, 3);
    assert_eq!(e.offset, 0x60);
    assert_eq!(e.ftype, 1);
    assert_eq!(e.inumber, 0x45);
    assert_eq!(n, 11);
    let (e, n) = DirSfEntry::parse(&bytes, 0, false).expect("entry");
    assert_eq!(e.ftype, 0);
    assert_eq!(e.inumber, 0x0100_0000);
    assert_eq!(n, 10);
    let bad = [2, 0, 0, 0xff, b'z', 0, 0, 0, 5];
    let (e, _) = DirSfEntry::parse(&bad, 0, false).expect("entry");
    assert_eq!(e.name, "\u{fffd}z");
    assert!(matches!(DirSfEntry::parse(&bytes[..5], 0, true), Err(ParseError::BufferTooSmall { .. })));
}

#[test]
fn geometry_conversions() {
    let g = Geometry::from_superblock(&sample_sb());
    assert_eq!(g, Geometry { block_size: 4096, sector_size: 512, ag_blocks: 16, ag_count: 3 });
    assert_eq!(g.fsb_to_bytes(3), 12288);
    assert_eq!(g.fsb_to_bytes(u64::MAX), u64::MAX);
    assert_eq!(g.bytes_to_fsb(12288), 3);
    assert_eq!(g.bytes_to_fsb(12287), 2);
}

#[test]
fn reader_arithmetic() {
    let sb = sample_sb();
    assert_eq!(ag_start(&sb, 2), Ok(2 * 16 * 4096));
    assert_eq!(ag_start(&sb, 3), Err(ReadError::Device(DeviceError::OutOfRange)));
    assert_eq!(ensure_sector_size(512), Ok(512));
    assert_eq!(
        ensure_sector_size(8192),
        Err(ReadError::Parse(ParseError::InvalidField { field: "sector_size", value: 8192 }))
    );
    // inode 64 is the first of block 8 of group 0; inode 129 the second of block 0 of group 1
    assert_eq!(inode_offset(&sb, 64), Ok(8 * 4096));
    assert_eq!(inode_offset(&sb, 129), Ok(16 * 4096 + 512));
    let e = BmapExtent { state: 0, startoff: 0, startblock: (1 << 4) | 9, blockcount: 1 };
    assert_eq!(extent_to_physical_offset(&sb, &e), Some((16 + 9) * 4096));
}

#[test]
fn inline_and_extent_planning() {
    let fork = b"hello world";
    assert_eq!(inline_file_data(fork, 11, 6, 100).expect("read"), b"world".to_vec());
    assert_eq!(inline_file_data(fork, 11, 11, 5).expect("read"), Vec::<u8>::new());
    assert!(inline_file_data(fork, 20, 5, 10).is_err());

    let mut recs = Vec::new();
    for (startoff, startblock, count) in [(0u64, 9u64, 1u32), (1, 12, 2)] {
        let hi = startoff << 9;
        let lo = (startblock << 21) | u64::from(count);
        recs.extend_from_slice(&hi.to_be_bytes());
        recs.extend_from_slice(&lo.to_be_bytes());
    }
    let extents = parse_extent_list(&recs, 2).expect("extents");
    assert_eq!(extents.len(), 2);
    assert_eq!(extents[1].startblock, 12);
    assert_eq!(
        parse_extent_list(&recs, 3).map(|v| v.len()),
        Err(ReadError::Parse(ParseError::BufferTooSmall { expected: 16, actual: 0 }))
    );
    let sb = sample_sb();
    let reads = plan_extent_reads(&sb, &extents, 10000, 4000, 200).expect("plan");
    assert_eq!(reads, vec![(9 * 4096 + 4000, 96), (12 * 4096, 104)]);
}

#[test]
fn vfs_mapping() {
    assert_eq!(map_ino(128, FUSE_ROOT_ID), 128);
    assert_eq!(map_ino(128, 131), 131);
    assert_eq!(kernel_ino(128, 128), FUSE_ROOT_ID);
    assert_eq!(kernel_ino(128, 131), 131);
    assert_eq!(kernel_ino(128, map_ino(128, FUSE_ROOT_ID)), FUSE_ROOT_ID);
    assert_eq!(file_kind_of_mode(0o40755), FileKind::Directory);
    assert_eq!(file_kind_of_mode(0o120777), FileKind::Symlink);
    assert_eq!(file_kind_of_mode(0o100644), FileKind::RegularFile);
    assert_eq!(file_kind_of_mode(0o140000), FileKind::Socket);
    assert_eq!(perm_of_mode(0o100644), 0o644);
    assert_eq!(file_kind_of_ftype(2), FileKind::Directory);
    assert_eq!(file_kind_of_ftype(1), FileKind::RegularFile);
    assert_eq!(file_kind_of_ftype(7), FileKind::Socket);
    assert_eq!(entry_for_kernel(128, 128, 0), (FUSE_ROOT_ID, FileKind::Directory));
    assert_eq!(entry_for_kernel(128, 140, 3), (140, FileKind::Symlink));
    let entries = vec![
        DirEntry { ino: 1, name: "a".to_string(), ftype: 1 },
        DirEntry { ino: 2, name: "b".to_string(), ftype: 1 },
        DirEntry { ino: 3, name: "b".to_string(), ftype: 2 },
    ];
    assert_eq!(find_entry(&entries, &"b".to_string()), Some(1));
    assert_eq!(find_entry(&entries, &"c".to_string()), None);
}

#[test]
fn error_conversions() {
    let r: ReadError = DeviceError::Io.into();
    assert_eq!(r, ReadError::Device(DeviceError::Io));
    let r: ReadError = ParseError::UnsupportedVersion(3).into();
    assert_eq!(r, ReadError::Parse(ParseError::UnsupportedVersion(3)));
    let w: WriteError = DeviceError::OutOfRange.into();
    assert_eq!(w, WriteError::Device(DeviceError::OutOfRange));
    let t = u8::try_from(300u32).unwrap_err();
    let w = WriteError::TryFromInt(t);
    assert_eq!(w.clone(), w);
}

#[test]
fn mkfs_option_checks() {
    let ok = MkfsOptions { block_size: 4096, sector_size: 512, ag_blocks: 16, total_blocks: 48, uuid: [0u8; 16] };
    assert!(xfs::writer::mkfs_options_valid(&ok));
    assert!(!xfs::writer::mkfs_options_valid(&MkfsOptions { ag_blocks: 9, ..ok }));
    assert!(!xfs::writer::mkfs_options_valid(&MkfsOptions { total_blocks: 9, ..ok }));
    assert!(!xfs::writer::mkfs_options_valid(&MkfsOptions { block_size: 256, ..ok }));
    assert!(!xfs::writer::mkfs_options_valid(&MkfsOptions { block_size: 8192, ..ok }));
    assert!(!xfs::writer::mkfs_options_valid(&MkfsOptions { sector_size: 8192, ..ok }));
    // the last group's headers would lie beyond 64-bit offsets
    assert!(!xfs::writer::mkfs_options_valid(&MkfsOptions {
        ag_blocks: 0xffff_ffff,
        total_blocks: u64::MAX / 2,
        ..ok
    }));
    // the default layout of the command line tool
    assert!(xfs::writer::mkfs_options_valid(&MkfsOptions {
        ag_blocks: 262_144,
        total_blocks: (1u64 << 30) / 4096,
        ..ok
    }));
}

#[test]
fn superblock_feature_words() {
    let sb = sample_sb();
    assert_eq!(sb.feature_words(), (0, 0));
    let mut v5 = sb.v5.unwrap();
    v5.features_ro_compat = 0x9;
    v5.features_incompat = 0x3;
    let sb2 = xfs::on_disk::superblock::Superblock { v5: Some(v5), ..sb };
    assert_eq!(sb2.feature_words(), (0x9, 0x3));
    assert!(sb2.has_ro_compat_feature(1));
    assert!(sb2.has_incompat_feature(2));
    assert!(!sb2.has_incompat_feature(4));
    let sb4 = xfs::on_disk::superblock::Superblock { v5: None, version: 4, ..sb };
    assert_eq!(sb4.feature_words(), (0, 0));
    assert!(!sb4.is_v5());
}

#[test]
fn transfer_steps() {
    assert_eq!(transfer_step(10, 0, 4, false), Ok(4));
    assert_eq!(transfer_step(10, 4, 6, true), Ok(10));
    assert_eq!(transfer_step(10, 4, 0, false), Err(DeviceError::ShortRead { expected: 10, actual: 4 }));
    assert_eq!(transfer_step(10, 7, 0, true), Err(DeviceError::ShortWrite { expected: 10, actual: 7 }));
}

#[test]
fn inode_attributes_for_the_kernel() {
    let inode = Inode {
        magic: 0x494e,
        mode: 0o100640,
        version: 3,
        format: InodeFormat::Extents,
        onlink: 0,
        uid: 7,
        gid: 8,
        nlink: 3,
        projid: 0,
        flushiter: 0,
        atime: (-1, 0),
        mtime: (100, 0),
        ctime: (200, 0),
        size: 4097,
        nblocks: 2,
        extsize: 0,
        nextents: 1,
        anextents: 0,
        forkoff: 0,
        aformat: InodeFormat::Extents,
        dmevmask: 0,
        dmstate: 0,
        flags: 0,
        generation: 0,
        next_unlinked: 0,
        crc: 0,
        change_count: 0,
        lsn: 0,
        flags2: 0,
        cowextsize: 0,
        crtime: (300, 0),
        ino: 130,
        uuid: [0u8; 16],
    };
    let a = inode_to_attr(&inode);
    assert_eq!(
        a,
        InodeAttr {
            ino: 130,
            size: 4097,
            blocks: 2,
            atime: u64::MAX,
            mtime: 100,
            ctime: 200,
            crtime: 300,
            kind: FileKind::RegularFile,
            perm: 0o640,
            nlink: 3,
            uid: 7,
            gid: 8,
        }
    );
    assert_eq!(kernel_attr(128, 130, &inode).ino, 130);
    assert_eq!(kernel_attr(130, 130, &inode).ino, FUSE_ROOT_ID);

    let entries = vec![
        DirEntry { ino: 128, name: ".".to_string(), ftype: 2 },
        DirEntry { ino: 128, name: "..".to_string(), ftype: 2 },
        DirEntry { ino: 131, name: "f".to_string(), ftype: 1 },
    ];
    let listing = readdir_entries(128, &entries, 1);
    assert_eq!(
        listing,
        vec![
            KernelDirEntry { ino: FUSE_ROOT_ID, next_offset: 2, kind: FileKind::Directory, name: "..".to_string() },
            KernelDirEntry { ino: 131, next_offset: 3, kind: FileKind::RegularFile, name: "f".to_string() },
        ]
    );
    assert_eq!(readdir_entries(128, &entries, 3), vec![]);
    assert_eq!(readdir_entries(128, &entries, u64::MAX), vec![]);
    assert_eq!(readdir_entries(128, &entries, 0).len(), 3);
}
