use xfs::crc::{crc32c, verify_xfs_crc, XFS_CRC_SEED};

fn write_xfs_crc(buf: &mut [u8], off: usize) {
    buf[off..off + 4].copy_from_slice(&[0, 0, 0, 0]);
    let mut crc = crc32c(XFS_CRC_SEED, &buf[..off]);
    crc = crc32c(crc, &[0u8; 4]);
    crc = crc32c(crc, &buf[off + 4..]);
    let stored = (!crc).to_le_bytes();
    buf[off..off + 4].copy_from_slice(&stored);
}

#[test]
fn verifies_crc() {
    let mut buf = [0u8; 128];
    let mut i = 0usize;
    while i < buf.len() {
        buf[i] = (i as u8).wrapping_mul(7);
        i += 1;
    }
    write_xfs_crc(&mut buf, 20);
    assert!(verify_xfs_crc(&buf, 20));
    buf[99] ^= 0x55;
    assert!(!verify_xfs_crc(&buf, 20));
}
