//! Reading and writing the on-disk structures of the XFS filesystem.
//!
//! Every decoder and encoder here is verified against a byte-level model of
//! the format: the spec functions in [`endian`] say what a field's bytes mean,
//! and each structure's module says which bytes hold which field. On top of
//! them, [`reader`] reads structures, directories and files from a
//! [`device::BlockDevice`], [`writer`] makes a new filesystem, [`readback`]
//! proves that what `mkfs` writes the reader finds and decodes, and [`vfs`]
//! holds the decisions of a file-system-in-userspace front end.

pub mod crc;
pub mod endian;
pub mod error;
pub mod on_disk;
pub mod device;
pub mod reader;
pub mod geometry;
pub mod vfs;
pub mod writer;
pub mod readback;
