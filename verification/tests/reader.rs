use xfs::device::BlockDevice;
use xfs::error::{DeviceError, ReadError};
use xfs::on_disk::agf::XFS_AGF_MAGIC;
use xfs::on_disk::agi::{XFS_AGI_MAGIC, XFS_AGI_VERSION};
use xfs::on_disk::superblock::{Superblock, XFS_SB_MAGIC, XFS_SB_VERSION_5};
use xfs::reader::{read_agf, read_superblock};

struct MockDevice {
    data: [u8; 4096],
    last_offset: u64,
}

impl BlockDevice for MockDevice {
    fn read_at(&mut self, offset: u64, buf: &mut [u8]) -> Result<(), DeviceError> {
        self.last_offset = offset;
        let start = usize::try_from(offset).unwrap();
        let end = start + buf.len();
        if end > self.data.len() {
            return Err(DeviceError::OutOfRange);
        }
        buf.copy_from_slice(&self.data[start..end]);
        Ok(())
    }

    fn write_at(&mut self, offset: u64, buf: &[u8]) -> Result<(), DeviceError> {
        self.last_offset = offset;
        let start = usize::try_from(offset).unwrap();
        let end = start + buf.len();
        if end > self.data.len() {
            return Err(DeviceError::OutOfRange);
        }
        self.data[start..end].copy_from_slice(buf);
        Ok(())
    }
}

fn put_be16(buf: &mut [u8], off: usize, value: u16) {
    buf[off..off + 2].copy_from_slice(&value.to_be_bytes());
}
fn put_be32(buf: &mut [u8], off: usize, value: u32) {
    buf[off..off + 4].copy_from_slice(&value.to_be_bytes());
}

fn mock_fs() -> MockDevice {
    let mut data = [0u8; 4096];
    put_be32(&mut data, 0, XFS_SB_MAGIC);
    put_be32(&mut data, 4, 4096);
    put_be32(&mut data, 84, 100);
    put_be32(&mut data, 88, 2);
    put_be16(&mut data, 100, XFS_SB_VERSION_5);
    put_be16(&mut data, 102, 512);
    put_be16(&mut data, 104, 512);

    put_be32(&mut data, 512, XFS_AGF_MAGIC);
    put_be32(&mut data, 516, 1);
    put_be32(&mut data, 520, 0);
    put_be32(&mut data, 524, 100);
    put_be32(&mut data, 564, 77);
    put_be32(&mut data, 568, 88);

    put_be32(&mut data, 1024, XFS_AGI_MAGIC);
    put_be32(&mut data, 1028, XFS_AGI_VERSION);
    put_be32(&mut data, 1032, 0);
    put_be32(&mut data, 1036, 100);
    put_be32(&mut data, 1040, 12);
    put_be32(&mut data, 1052, 5);
    put_be32(&mut data, 1352, 6);
    put_be32(&mut data, 1360, 8);
    put_be32(&mut data, 1364, 9);

    MockDevice { data, last_offset: 0 }
}

#[test]
fn parse_errors_are_wrapped() {
    let mut dev = MockDevice { data: [0u8; 4096], last_offset: 0 };
    let err = read_superblock(&mut dev).expect_err("should fail");
    assert!(matches!(err, ReadError::Parse(_)));
}

#[test]
fn ag_out_of_range() {
    let mut dev = mock_fs();
    let sb = Superblock {
        block_size: 4096,
        dblocks: 0,
        rblocks: 0,
        rextents: 0,
        uuid: [0u8; 16],
        logstart: 0,
        rootino: 0,
        rbmino: 0,
        rsumino: 0,
        rextsize: 0,
        ag_blocks: 100,
        ag_count: 2,
        rbm_blocks: 0,
        log_blocks: 0,
        version: 4,
        sector_size: 512,
        inode_size: 512,
        inode_per_block: 8,
        fname: [0u8; 12],
        block_log: 12,
        sect_log: 9,
        inode_log: 9,
        inopblog: 3,
        agblklog: 7,
        rextslog: 0,
        inprogress: false,
        imax_pct: 25,
        icount: 0,
        ifree: 0,
        fdblocks: 0,
        frextents: 0,
        uquotino: 0,
        gquotino: 0,
        qflags: 0,
        flags: 0,
        shared_vn: 0,
        inoalignmt: 0,
        unit: 0,
        width: 0,
        log_sector_size: 0,
        log_sunit: 0,
        features2: 0,
        bad_features2: 0,
        v5: None,
    };
    let err = read_agf(&mut dev, &sb, 2).expect_err("out of range");
    assert!(matches!(err, ReadError::Device(DeviceError::OutOfRange)));
    let _ = mock_fs().last_offset;
}
