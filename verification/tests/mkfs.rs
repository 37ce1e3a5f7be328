use xfs::device::BlockDevice;
use xfs::error::{DeviceError, ReadError, WriteError};
use xfs::on_disk::agfl::XFS_AGFL_MAGIC;
use xfs::on_disk::inobt::{InodeBtreeKind, XFS_FIBT_CRC_MAGIC, XFS_IBT_CRC_MAGIC};
use xfs::on_disk::inode::{InodeFormat, XFS_DINODE_MAGIC};
use xfs::on_disk::superblock::XFS_SB_VERSION_5;
use xfs::reader::{
    read_agf, read_agfl, read_agi, read_finobt_root, read_inobt_root, read_inode, read_superblock,
};
use xfs::writer::{mkfs, mkfs_ag_writes, mkfs_superblock, MkfsOptions};

struct MemDevice {
    data: Vec<u8>,
    writes: usize,
    fail_after: Option<usize>,
}

impl MemDevice {
    fn new(len: usize) -> Self {
        MemDevice { data: vec![0u8; len], writes: 0, fail_after: None }
    }
}

impl BlockDevice for MemDevice {
    fn read_at(&mut self, offset: u64, buf: &mut [u8]) -> Result<(), DeviceError> {
        let start = usize::try_from(offset).map_err(|_| DeviceError::OutOfRange)?;
        let end = start + buf.len();
        if end > self.data.len() {
            return Err(DeviceError::OutOfRange);
        }
        buf.copy_from_slice(&self.data[start..end]);
        Ok(())
    }

    fn write_at(&mut self, offset: u64, buf: &[u8]) -> Result<(), DeviceError> {
        if self.fail_after == Some(self.writes) {
            return Err(DeviceError::Io);
        }
        self.writes += 1;
        let start = usize::try_from(offset).map_err(|_| DeviceError::OutOfRange)?;
        let end = start + buf.len();
        if end > self.data.len() {
            return Err(DeviceError::OutOfRange);
        }
        self.data[start..end].copy_from_slice(buf);
        Ok(())
    }
}

fn small_opts() -> MkfsOptions {
    MkfsOptions {
        block_size: 4096,
        sector_size: 512,
        ag_blocks: 16,
        total_blocks: 40,
        uuid: [7u8; 16],
    }
}

#[test]
fn mkfs_superblock_geometry() {
    let sb = mkfs_superblock(&small_opts());
    assert_eq!(sb.block_size, 4096);
    assert_eq!(sb.ag_count, 3);
    assert_eq!(sb.inopblog, 3);
    assert_eq!(sb.block_log, 12);
    assert_eq!(sb.sect_log, 9);
    assert_eq!(sb.agblklog, 4);
    assert_eq!(sb.rootino, 64);
    assert_eq!(sb.fdblocks, 30);
    assert_eq!(sb.version, XFS_SB_VERSION_5);
    assert!(sb.is_v5());
}

#[test]
fn mkfs_ag_writes_layout() {
    let opts = small_opts();
    let sb = mkfs_superblock(&opts);
    let w0 = mkfs_ag_writes(&opts, &sb, 0);
    let offsets: Vec<u64> = w0.iter().map(|w| w.0).collect();
    assert_eq!(offsets, vec![0, 512, 1024, 1536, 16384, 20480, 24576, 28672, 32768]);
    assert_eq!(w0[0].1.len(), 512);
    assert_eq!(w0[4].1.len(), 4096);
    assert_eq!(w0[8].1.len(), 512);
    let w2 = mkfs_ag_writes(&opts, &sb, 2);
    assert_eq!(w2.len(), 8);
    assert_eq!(w2[0].0, 2 * 16 * 4096);
}

#[test]
fn mkfs_then_read_back() {
    let opts = small_opts();
    let mut dev = MemDevice::new(40 * 4096);
    mkfs(&mut dev, &opts).expect("mkfs");
    assert_eq!(dev.writes, 9 + 8 + 8);

    let sb = read_superblock(&mut dev).expect("superblock");
    let mut expected = mkfs_superblock(&opts);
    if let Some(v5) = expected.v5.as_mut() {
        v5.crc = sb.v5.unwrap().crc;
    }
    assert_eq!(sb, expected);
    assert_eq!(sb.uuid, [7u8; 16]);

    for agno in 0..3u32 {
        let agf = read_agf(&mut dev, &sb, agno).expect("agf");
        assert_eq!(agf.seqno, agno);
        assert_eq!(agf.length, 16);
        assert_eq!(agf.freeblks, 6);
        assert_eq!(agf.bno_root, 4);
        assert_eq!(agf.cnt_root, 5);

        let agi = read_agi(&mut dev, &sb, agno).expect("agi");
        assert_eq!(agi.seqno, agno);
        assert_eq!(agi.root, 6);
        assert_eq!(agi.free_root, 7);
        assert_eq!(agi.count, if agno == 0 { 64 } else { 0 });
        assert_eq!(agi.unlinked, [0xffff_ffffu32; 64]);

        let agfl = read_agfl(&mut dev, &sb, agno).expect("agfl");
        assert_eq!(agfl.magicnum, XFS_AGFL_MAGIC);
        assert_eq!(agfl.seqno, agno);
        assert_eq!(agfl.entries_total, (512 - 36) / 4);

        let mut scratch = vec![0u8; 4096];
        let inobt = read_inobt_root(&mut dev, &sb, &agi, agno, &mut scratch).expect("inobt");
        assert_eq!(inobt.kind, InodeBtreeKind::Inobt);
        assert_eq!(inobt.magic, XFS_IBT_CRC_MAGIC);
        assert_eq!(inobt.blkno, u64::from(agno) * 16 + 6);
        assert_eq!(inobt.owner, agno);
        let finobt = read_finobt_root(&mut dev, &sb, &agi, agno, &mut scratch).expect("finobt");
        assert_eq!(finobt.magic, XFS_FIBT_CRC_MAGIC);
        assert_eq!(finobt.blkno, u64::from(agno) * 16 + 7);
    }

    let mut scratch = vec![0u8; 512];
    let root = read_inode(&mut dev, &sb, sb.rootino, &mut scratch).expect("root inode");
    assert_eq!(root.magic, XFS_DINODE_MAGIC);
    assert_eq!(root.mode, 0x41ed);
    assert_eq!(root.format, InodeFormat::Local);
    assert_eq!(root.nlink, 2);
    assert_eq!(root.ino, 64);
}

#[test]
fn mkfs_reports_device_errors() {
    let opts = small_opts();
    let mut dev = MemDevice::new(40 * 4096);
    dev.fail_after = Some(3);
    let err = mkfs(&mut dev, &opts).expect_err("device fails");
    assert_eq!(err, WriteError::Device(DeviceError::Io));
    assert_eq!(dev.writes, 3);
}

#[test]
fn corrupted_superblock_crc_is_caught() {
    let opts = small_opts();
    let mut dev = MemDevice::new(40 * 4096);
    mkfs(&mut dev, &opts).expect("mkfs");
    dev.data[400] ^= 0xff;
    let err = read_superblock(&mut dev).expect_err("crc");
    assert!(matches!(err, ReadError::Parse(xfs::error::ParseError::CrcMismatch { .. })));
}

#[test]
fn mkfs_without_groups_writes_nothing() {
    // 2^32 groups of 10 blocks: the group count wraps to 0
    let opts = MkfsOptions {
        block_size: 4096,
        sector_size: 512,
        ag_blocks: 10,
        total_blocks: 10 << 32,
        uuid: [0u8; 16],
    };
    assert!(xfs::writer::mkfs_options_valid(&opts));
    let mut dev = MemDevice::new(0);
    assert_eq!(mkfs(&mut dev, &opts), Ok(()));
    assert_eq!(dev.writes, 0);
}

struct LogDevice {
    log: Vec<(u64, Vec<u8>)>,
    reads: usize,
}

impl BlockDevice for LogDevice {
    fn read_at(&mut self, _offset: u64, _buf: &mut [u8]) -> Result<(), DeviceError> {
        self.reads += 1;
        Ok(())
    }

    fn write_at(&mut self, offset: u64, buf: &[u8]) -> Result<(), DeviceError> {
        self.log.push((offset, buf.to_vec()));
        Ok(())
    }
}

#[test]
fn mkfs_write_sequence() {
    let opts = MkfsOptions {
        block_size: 4096,
        sector_size: 512,
        ag_blocks: 16,
        total_blocks: 24,
        uuid: [0u8; 16],
    };
    let mut dev = LogDevice { log: Vec::new(), reads: 0 };
    assert_eq!(mkfs(&mut dev, &opts), Ok(()));
    let places: Vec<(u64, usize)> = dev.log.iter().map(|w| (w.0, w.1.len())).collect();
    assert_eq!(
        places,
        vec![
            (0, 512),
            (512, 512),
            (1024, 512),
            (1536, 512),
            (16384, 4096),
            (20480, 4096),
            (24576, 4096),
            (28672, 4096),
            (32768, 512),
            (65536, 512),
            (66048, 512),
            (66560, 512),
            (67072, 512),
            (81920, 4096),
            (86016, 4096),
            (90112, 4096),
            (94208, 4096),
        ]
    );
    assert_eq!(dev.reads, 0);
    assert_eq!(&dev.log[0].1[88..92], &[0, 0, 0, 2]);
    // checksum offsets: superblock, AGF, AGI, AGFL, four tree roots, root inode
    let offsets = [224, 216, 312, 32, 52, 52, 52, 52, 100, 224, 216, 312, 32, 52, 52, 52, 52];
    for (i, w) in dev.log.iter().enumerate() {
        assert!(xfs::crc::verify_xfs_crc(&w.1, offsets[i]), "write {i}");
    }
}
