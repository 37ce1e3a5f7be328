//! The on-disk structures, each with its decoder, its encoder and the byte
//! layout that both follow.

pub mod agf;
pub mod agfl;
pub mod inobt;
pub mod agi;
pub mod inode;
pub mod superblock;
pub mod bmap;
pub mod dir;
