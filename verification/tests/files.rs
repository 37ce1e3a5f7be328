use xfs::crc::write_xfs_crc;
use xfs::device::BlockDevice;
use xfs::error::{DeviceError, ParseError, ReadError};
use xfs::on_disk::inode::{Inode, InodeFormat, XFS_DINODE_CRC_OFF};
use xfs::on_disk::superblock::Superblock;
use xfs::reader::{
    file_read_of_inode, list_dir_entries, read_file_data, read_inode, read_superblock, DirEntry, FileRead,
};
use xfs::writer::{mkfs, MkfsOptions};

struct MemDevice {
    data: Vec<u8>,
}

impl BlockDevice for MemDevice {
    fn read_at(&mut self, offset: u64, buf: &mut [u8]) -> Result<(), DeviceError> {
        let start = usize::try_from(offset).map_err(|_| DeviceError::OutOfRange)?;
        let end = start + buf.len();
        if end > self.data.len() {
            return Err(DeviceError::OutOfRange);
        }
        buf.copy_from_slice(&self.data[start..end]);
        Ok(())
    }

    fn write_at(&mut self, offset: u64, buf: &[u8]) -> Result<(), DeviceError> {
        let start = usize::try_from(offset).map_err(|_| DeviceError::OutOfRange)?;
        let end = start + buf.len();
        if end > self.data.len() {
            return Err(DeviceError::OutOfRange);
        }
        self.data[start..end].copy_from_slice(buf);
        Ok(())
    }
}

/// A fresh filesystem of one 16-block group of 4096-byte blocks.
fn fresh() -> (MemDevice, Superblock, Inode) {
    let opts = MkfsOptions {
        block_size: 4096,
        sector_size: 512,
        ag_blocks: 16,
        total_blocks: 16,
        uuid: [3u8; 16],
    };
    let mut dev = MemDevice { data: vec![0u8; 16 * 4096] };
    mkfs(&mut dev, &opts).expect("mkfs");
    let sb = read_superblock(&mut dev).expect("superblock");
    let mut scratch = vec![0u8; 512];
    let root = read_inode(&mut dev, &sb, sb.rootino, &mut scratch).expect("root");
    (dev, sb, root)
}

/// Writes inode `ino` (in the root's inode block) with `template` as its core
/// and `fork` as its data fork, sealed with its checksum.
fn put_inode(dev: &mut MemDevice, ino: u64, template: &Inode, fork: &[u8]) {
    let mut buf = vec![0u8; 512];
    let inode = Inode { ino, ..*template };
    inode.serialize(&mut buf).expect("serialize");
    buf[176..176 + fork.len()].copy_from_slice(fork);
    write_xfs_crc(&mut buf, XFS_DINODE_CRC_OFF);
    let off = 8 * 4096 + (ino - 64) * 512;
    dev.write_at(off, &buf).expect("write");
}

#[test]
fn fresh_root_lists_dot_and_dotdot() {
    let (mut dev, sb, _) = fresh();
    let entries = list_dir_entries(&mut dev, &sb, sb.rootino).expect("list");
    assert_eq!(
        entries,
        vec![
            DirEntry { ino: 64, name: ".".to_string(), ftype: 2 },
            DirEntry { ino: 0, name: "..".to_string(), ftype: 2 },
        ]
    );
}

#[test]
fn shortform_directory_entries() {
    let (mut dev, sb, root) = fresh();
    // header: two entries, 4-byte inode numbers, parent 64
    let mut fork = vec![2u8, 0, 0, 0, 0, 64];
    // "a" -> 65
    fork.extend_from_slice(&[1, 0, 0x30, b'a', 0, 0, 0, 65]);
    // "bb" -> 66
    fork.extend_from_slice(&[2, 0, 0x40, b'b', b'b', 0, 0, 0, 66]);
    let dir = Inode { size: fork.len() as i64, ..root };
    put_inode(&mut dev, 67, &dir, &fork);
    let entries = list_dir_entries(&mut dev, &sb, 67).expect("list");
    let names: Vec<(u64, &str)> = entries.iter().map(|e| (e.ino, e.name.as_str())).collect();
    assert_eq!(names, vec![(67, "."), (64, ".."), (65, "a"), (66, "bb")]);
    assert_eq!(entries[2].ftype, 0);
}

#[test]
fn listing_a_file_is_refused() {
    let (mut dev, sb, root) = fresh();
    let file = Inode { mode: 0x81a4, size: 0, ..root };
    put_inode(&mut dev, 65, &file, &[]);
    let err = list_dir_entries(&mut dev, &sb, 65).expect_err("not a directory");
    assert_eq!(err, ReadError::Parse(ParseError::InvalidField { field: "mode", value: 0x81a4 }));
}

#[test]
fn inline_file_reads() {
    let (mut dev, sb, root) = fresh();
    let file = Inode { mode: 0x81a4, size: 5, ..root };
    put_inode(&mut dev, 65, &file, b"hello");
    assert_eq!(read_file_data(&mut dev, &sb, 65, 1, 3).expect("read"), b"ell".to_vec());
    assert_eq!(read_file_data(&mut dev, &sb, 65, 3, 100).expect("read"), b"lo".to_vec());
    assert_eq!(read_file_data(&mut dev, &sb, 65, 5, 1).expect("read"), Vec::<u8>::new());
}

#[test]
fn extent_file_reads() {
    let (mut dev, sb, root) = fresh();
    // one extent: file block 0 -> filesystem block 9, one block long
    let lo: u64 = (9u64 << 21) | 1;
    let mut fork = vec![0u8; 8];
    fork.extend_from_slice(&lo.to_be_bytes());
    let file = Inode { mode: 0x81a4, format: InodeFormat::Extents, size: 10, nextents: 1, ..root };
    put_inode(&mut dev, 66, &file, &fork);
    dev.write_at(9 * 4096, b"0123456789abcdef").expect("write");
    assert_eq!(read_file_data(&mut dev, &sb, 66, 2, 100).expect("read"), b"23456789".to_vec());
    assert_eq!(read_file_data(&mut dev, &sb, 66, 0, 4).expect("read"), b"0123".to_vec());
    assert_eq!(read_file_data(&mut dev, &sb, 66, 10, 4).expect("read"), Vec::<u8>::new());
}

#[test]
fn directories_read_as_empty_files() {
    let (mut dev, sb, _) = fresh();
    assert_eq!(read_file_data(&mut dev, &sb, sb.rootino, 0, 10).expect("read"), Vec::<u8>::new());
}

#[test]
fn inode_beyond_the_device_is_out_of_range() {
    let (mut dev, sb, _) = fresh();
    let mut scratch = vec![0u8; 512];
    let err = read_inode(&mut dev, &sb, 64 + 16 * 8 * 100, &mut scratch).expect_err("beyond");
    assert!(matches!(err, ReadError::Device(_)));
    let mut small = vec![0u8; 100];
    let err = read_inode(&mut dev, &sb, 64, &mut small).expect_err("small scratch");
    assert_eq!(err, ReadError::Device(DeviceError::ShortRead { expected: 512, actual: 100 }));
}

#[test]
fn file_read_decisions() {
    let (_, sb, root) = fresh();
    // a directory reads as empty
    assert_eq!(file_read_of_inode(&sb, &root, &[0u8; 336], 0, 10), Ok(FileRead::Empty));
    // inline bytes
    let inline = Inode { mode: 0x81a4, size: 5, ..root };
    let mut fork = vec![0u8; 336];
    fork[..5].copy_from_slice(b"hello");
    assert_eq!(
        file_read_of_inode(&sb, &inline, &fork, 1, 3),
        Ok(FileRead::Inline(b"ell".to_vec()))
    );
    // inline data running past the fork
    let too_big = Inode { mode: 0x81a4, size: 400, ..root };
    assert_eq!(
        file_read_of_inode(&sb, &too_big, &fork, 0, 400),
        Err(ReadError::Parse(ParseError::InvalidField { field: "size", value: 400 }))
    );
    // one extent: file block 0 in filesystem block 9
    let lo: u64 = (9u64 << 21) | 1;
    let mut efork = vec![0u8; 336];
    efork[8..16].copy_from_slice(&lo.to_be_bytes());
    let ext = Inode { mode: 0x81a4, format: InodeFormat::Extents, size: 10, nextents: 1, ..root };
    assert_eq!(
        file_read_of_inode(&sb, &ext, &efork, 2, 100),
        Ok(FileRead::Extents(vec![(9 * 4096 + 2, 8)]))
    );
}
