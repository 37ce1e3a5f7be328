//! The on-disk inode core (version 3, with checksums).
use crate::endian::{
    be16, be32, be64, be_u16, be_u32, be_u64, copy_out, fill_zero, group_byte_codec, le32, le_u32,
    put_be16, put_be32, put_be64, put_bytes, put_u8, with_be16, with_be32, with_be64, with_bytes,
    with_u8, with_zeros,
};
use crate::error::ParseError;
use vstd::prelude::*;

verus! {

broadcast use group_byte_codec;

/// The magic number of an inode ("IN").
pub const XFS_DINODE_MAGIC: u16 = 0x494e;

/// The size of a version 3 inode core; the data fork follows it.
pub const XFS_DINODE_SIZE_V3: usize = 176;

/// The offset of the checksum in an inode.
pub const XFS_DINODE_CRC_OFF: usize = 100;

/// How the data (or attribute) fork of an inode is stored.
#[derive(Debug, Clone, Copy, PartialEq, Eq)]
pub enum InodeFormat {
    Dev,
    Local,
    Extents,
    Btree,
    Uuid,
}

/// The format that the on-disk code `v` stands for; codes above 3 read as
/// [`InodeFormat::Uuid`].
pub open spec fn inode_format_of(v: u8) -> InodeFormat {
    if v == 0 {
        InodeFormat::Dev
    } else if v == 1 {
        InodeFormat::Local
    } else if v == 2 {
        InodeFormat::Extents
    } else if v == 3 {
        InodeFormat::Btree
    } else {
        InodeFormat::Uuid
    }
}

/// The on-disk code of the format `f`.
pub open spec fn inode_format_code(f: InodeFormat) -> u8 {
    match f {
        InodeFormat::Dev => 0,
        InodeFormat::Local => 1,
        InodeFormat::Extents => 2,
        InodeFormat::Btree => 3,
        InodeFormat::Uuid => 4,
    }
}

/// Encoding a format and decoding the code gives the format back; decoding a
/// code and encoding the format gives the code back when it is one of the five
/// codes, and 4 otherwise.
pub proof fn lemma_inode_format_roundtrip(f: InodeFormat, v: u8)
    ensures
        inode_format_of(inode_format_code(f)) == f,
        inode_format_code(inode_format_of(v)) == if v <= 4 {
            v
        } else {
            4
        },
{
}

impl InodeFormat {
    #[must_use]
    pub fn from_u8(v: u8) -> (r: Self)
        ensures
            r == inode_format_of(v),
    {
        match v {
            0 => Self::Dev,
            1 => Self::Local,
            2 => Self::Extents,
            3 => Self::Btree,
            _ => Self::Uuid,
        }
    }

    #[must_use]
    pub fn to_u8(self) -> (r: u8)
        ensures
            r == inode_format_code(self),
    {
        match self {
            Self::Dev => 0,
            Self::Local => 1,
            Self::Extents => 2,
            Self::Btree => 3,
            Self::Uuid => 4,
        }
    }
}

#[derive(Debug, Clone, Copy, PartialEq, Eq)]
pub struct Inode {
    pub magic: u16,
    pub mode: u16,
    pub version: u8,
    pub format: InodeFormat,
    /// Link count of version 1 and 2 inodes.
    pub onlink: u16,
    pub uid: u32,
    pub gid: u32,
    /// Link count of version 3 inodes.
    pub nlink: u32,
    /// The project id, its low and high halves joined.
    pub projid: u32,
    pub flushiter: u16,
    pub atime: (i32, u32),
    pub mtime: (i32, u32),
    pub ctime: (i32, u32),
    pub size: i64,
    pub nblocks: u64,
    pub extsize: u32,
    pub nextents: u32,
    pub anextents: u16,
    pub forkoff: u8,
    pub aformat: InodeFormat,
    pub dmevmask: u32,
    pub dmstate: u16,
    pub flags: u16,
    pub generation: u32,
    pub next_unlinked: u32,
    pub crc: u32,
    pub change_count: u64,
    pub lsn: u64,
    pub flags2: u64,
    pub cowextsize: u32,
    pub crtime: (i32, u32),
    pub ino: u64,
    pub uuid: [u8; 16],
}

/// Why `b` does not hold an inode core, or `None` when it does.
pub open spec fn inode_error(b: Seq<u8>) -> Option<ParseError> {
    if b.len() < XFS_DINODE_SIZE_V3 {
        Some(ParseError::BufferTooSmall { expected: XFS_DINODE_SIZE_V3, actual: b.len() as usize })
    } else if be16(b, 0) != XFS_DINODE_MAGIC {
        Some(
            ParseError::InvalidMagic {
                expected: XFS_DINODE_MAGIC as u32,
                actual: be16(b, 0) as u32,
            },
        )
    } else {
        None
    }
}

/// A timestamp: signed seconds, then nanoseconds, at `b[off..off + 8]`.
pub open spec fn timestamp_at(b: Seq<u8>, off: int) -> (i32, u32) {
    (be32(b, off) as i32, be32(b, off + 4))
}

/// `n` holds the fields of the inode core stored in `b`.
pub open spec fn inode_decodes_to(b: Seq<u8>, n: Inode) -> bool {
    &&& n.magic == be16(b, 0)
    &&& n.mode == be16(b, 2)
    &&& n.version == b[4]
    &&& n.format == inode_format_of(b[5])
    &&& n.onlink == be16(b, 6)
    &&& n.uid == be32(b, 8)
    &&& n.gid == be32(b, 12)
    &&& n.nlink == be32(b, 16)
    &&& n.projid == be16(b, 22) * 0x1_0000 + be16(b, 20)
    &&& n.flushiter == be16(b, 30)
    &&& n.atime == timestamp_at(b, 32)
    &&& n.mtime == timestamp_at(b, 40)
    &&& n.ctime == timestamp_at(b, 48)
    &&& n.size == be64(b, 56) as i64
    &&& n.nblocks == be64(b, 64)
    &&& n.extsize == be32(b, 72)
    &&& n.nextents == be32(b, 76)
    &&& n.anextents == be16(b, 80)
    &&& n.forkoff == b[82]
    &&& n.aformat == inode_format_of(b[83])
    &&& n.dmevmask == be32(b, 84)
    &&& n.dmstate == be16(b, 88)
    &&& n.flags == be16(b, 90)
    &&& n.generation == be32(b, 92)
    &&& n.next_unlinked == be32(b, 96)
    &&& n.crc == le32(b, 100)
    &&& n.change_count == be64(b, 104)
    &&& n.lsn == be64(b, 112)
    &&& n.flags2 == be64(b, 120)
    &&& n.cowextsize == be32(b, 128)
    &&& n.crtime == timestamp_at(b, 144)
    &&& n.ino == be64(b, 152)
    &&& n.uuid@ == b.subrange(160, 176)
}

/// The first part of the image of `n`: bytes `0..30`.
#[verifier::opaque]
pub open spec fn inode_image_ids(n: Inode, b: Seq<u8>) -> Seq<u8> {
    let s = with_be16(b, 0, n.magic);
    let s = with_be16(s, 2, n.mode);
    let s = with_u8(s, 4, n.version);
    let s = with_u8(s, 5, inode_format_code(n.format));
    let s = with_be16(s, 6, n.onlink);
    let s = with_be32(s, 8, n.uid);
    let s = with_be32(s, 12, n.gid);
    let s = with_be32(s, 16, n.nlink);
    let s = with_be16(s, 20, (n.projid % 0x1_0000) as u16);
    let s = with_be16(s, 22, (n.projid / 0x1_0000) as u16);
    with_zeros(s, 24, 30)
}

/// The second part of the image of `n`: bytes `30..56`.
#[verifier::opaque]
pub open spec fn inode_image_times(n: Inode, b: Seq<u8>) -> Seq<u8> {
    let s = with_be16(b, 30, n.flushiter);
    let s = with_be32(s, 32, n.atime.0 as u32);
    let s = with_be32(s, 36, n.atime.1);
    let s = with_be32(s, 40, n.mtime.0 as u32);
    let s = with_be32(s, 44, n.mtime.1);
    let s = with_be32(s, 48, n.ctime.0 as u32);
    with_be32(s, 52, n.ctime.1)
}

/// The third part of the image of `n`: bytes `56..100`.
#[verifier::opaque]
pub open spec fn inode_image_body(n: Inode, b: Seq<u8>) -> Seq<u8> {
    let s = with_be64(b, 56, n.size as u64);
    let s = with_be64(s, 64, n.nblocks);
    let s = with_be32(s, 72, n.extsize);
    let s = with_be32(s, 76, n.nextents);
    let s = with_be16(s, 80, n.anextents);
    let s = with_u8(s, 82, n.forkoff);
    let s = with_u8(s, 83, inode_format_code(n.aformat));
    let s = with_be32(s, 84, n.dmevmask);
    let s = with_be16(s, 88, n.dmstate);
    let s = with_be16(s, 90, n.flags);
    let s = with_be32(s, 92, n.generation);
    with_be32(s, 96, n.next_unlinked)
}

/// The last part of the image of `n`: bytes `104..176`.
#[verifier::opaque]
pub open spec fn inode_image_tail(n: Inode, b: Seq<u8>) -> Seq<u8> {
    let s = with_be64(b, 104, n.change_count);
    let s = with_be64(s, 112, n.lsn);
    let s = with_be64(s, 120, n.flags2);
    let s = with_be32(s, 128, n.cowextsize);
    let s = with_zeros(s, 132, 144);
    let s = with_be32(s, 144, n.crtime.0 as u32);
    let s = with_be32(s, 148, n.crtime.1);
    let s = with_be64(s, 152, n.ino);
    with_bytes(s, 160, n.uuid@)
}

/// `b` after the inode core `n` has been written over its first
/// [`XFS_DINODE_SIZE_V3`] bytes, field by field in the order of the layout:
/// reserved bytes zeroed, the checksum field (`100..104`) left as it was.
pub open spec fn inode_image(n: Inode, b: Seq<u8>) -> Seq<u8> {
    inode_image_tail(n, inode_image_body(n, inode_image_times(n, inode_image_ids(n, b))))
}

proof fn lemma_i32_bits_roundtrip(x: i32)
    ensures
        (x as u32) as i32 == x,
{
    assert((x as u32) as i32 == x) by (bit_vector);
}

proof fn lemma_i64_bits_roundtrip(x: i64)
    ensures
        (x as u64) as i64 == x,
{
    assert((x as u64) as i64 == x) by (bit_vector);
}

proof fn lemma_inode_image_ids(n: Inode, s: Seq<u8>)
    requires
        s.len() >= XFS_DINODE_SIZE_V3,
    ensures
        ({
            let h = inode_image_ids(n, s);
            &&& h.len() == s.len()
            &&& forall|a: int, c: int|
                30 <= a <= c <= s.len() ==> #[trigger] h.subrange(a, c) == s.subrange(a, c)
            &&& be16(h, 0) == n.magic
            &&& be16(h, 2) == n.mode
            &&& h.subrange(4, 5)[0] == n.version
            &&& h.subrange(5, 6)[0] == inode_format_code(n.format)
            &&& be16(h, 6) == n.onlink
            &&& be32(h, 8) == n.uid
            &&& be32(h, 12) == n.gid
            &&& be32(h, 16) == n.nlink
            &&& be16(h, 20) == (n.projid % 0x1_0000) as u16
            &&& be16(h, 22) == (n.projid / 0x1_0000) as u16
        }),
{
    reveal(inode_image_ids);
}

proof fn lemma_inode_image_times(n: Inode, s: Seq<u8>)
    requires
        s.len() >= XFS_DINODE_SIZE_V3,
    ensures
        ({
            let h = inode_image_times(n, s);
            &&& h.len() == s.len()
            &&& forall|a: int, c: int|
                0 <= a <= c <= s.len() && (c <= 30 || 56 <= a) ==> #[trigger] h.subrange(a, c)
                    == s.subrange(a, c)
            &&& be16(h, 30) == n.flushiter
            &&& be32(h, 32) == n.atime.0 as u32
            &&& be32(h, 36) == n.atime.1
            &&& be32(h, 40) == n.mtime.0 as u32
            &&& be32(h, 44) == n.mtime.1
            &&& be32(h, 48) == n.ctime.0 as u32
            &&& be32(h, 52) == n.ctime.1
        }),
{
    reveal(inode_image_times);
}

proof fn lemma_inode_image_body(n: Inode, s: Seq<u8>)
    requires
        s.len() >= XFS_DINODE_SIZE_V3,
    ensures
        ({
            let h = inode_image_body(n, s);
            &&& h.len() == s.len()
            &&& forall|a: int, c: int|
                0 <= a <= c <= s.len() && (c <= 56 || 100 <= a) ==> #[trigger] h.subrange(a, c)
                    == s.subrange(a, c)
            &&& be64(h, 56) == n.size as u64
            &&& be64(h, 64) == n.nblocks
            &&& be32(h, 72) == n.extsize
            &&& be32(h, 76) == n.nextents
            &&& be16(h, 80) == n.anextents
            &&& h.subrange(82, 83)[0] == n.forkoff
            &&& h.subrange(83, 84)[0] == inode_format_code(n.aformat)
            &&& be32(h, 84) == n.dmevmask
            &&& be16(h, 88) == n.dmstate
            &&& be16(h, 90) == n.flags
            &&& be32(h, 92) == n.generation
            &&& be32(h, 96) == n.next_unlinked
        }),
{
    reveal(inode_image_body);
}

proof fn lemma_inode_image_tail(n: Inode, s: Seq<u8>)
    requires
        s.len() >= XFS_DINODE_SIZE_V3,
    ensures
        ({
            let h = inode_image_tail(n, s);
            &&& h.len() == s.len()
            &&& forall|a: int, c: int|
                0 <= a <= c <= s.len() && (c <= 104 || 176 <= a) ==> #[trigger] h.subrange(a, c)
                    == s.subrange(a, c)
            &&& be64(h, 104) == n.change_count
            &&& be64(h, 112) == n.lsn
            &&& be64(h, 120) == n.flags2
            &&& be32(h, 128) == n.cowextsize
            &&& be32(h, 144) == n.crtime.0 as u32
            &&& be32(h, 148) == n.crtime.1
            &&& be64(h, 152) == n.ino
            &&& h.subrange(160, 176) == n.uuid@
        }),
{
    reveal(inode_image_tail);
}

/// What is written is read back: an inode core with the inode magic number
/// decodes to itself, with the checksum that the image left as `b` had it.
pub proof fn lemma_inode_roundtrip(n: Inode, b: Seq<u8>)
    requires
        b.len() >= XFS_DINODE_SIZE_V3,
        n.magic == XFS_DINODE_MAGIC,
    ensures
        inode_image(n, b).len() == b.len(),
        inode_error(inode_image(n, b)) is None,
        inode_decodes_to(inode_image(n, b), Inode { crc: le32(b, 100), ..n }),
{
    let i = inode_image_ids(n, b);
    let h = inode_image_times(n, i);
    let m = inode_image_body(n, h);
    let img = inode_image_tail(n, m);
    lemma_inode_image_ids(n, b);
    lemma_inode_image_times(n, i);
    lemma_inode_image_body(n, h);
    lemma_inode_image_tail(n, m);
    lemma_i32_bits_roundtrip(n.atime.0);
    lemma_i32_bits_roundtrip(n.mtime.0);
    lemma_i32_bits_roundtrip(n.ctime.0);
    lemma_i32_bits_roundtrip(n.crtime.0);
    lemma_i64_bits_roundtrip(n.size);
    lemma_inode_format_roundtrip(n.format, 0);
    lemma_inode_format_roundtrip(n.aformat, 0);
    assert(img.subrange(4, 5)[0] == img[4]);
    assert(img.subrange(5, 6)[0] == img[5]);
    assert(img.subrange(82, 83)[0] == img[82]);
    assert(img.subrange(83, 84)[0] == img[83]);
    assert(n.projid == (n.projid / 0x1_0000) * 0x1_0000 + n.projid % 0x1_0000);
}

/// Decoding is deterministic: bytes decode to at most one inode core.
pub proof fn lemma_inode_decode_unique(b: Seq<u8>, x: Inode, y: Inode)
    requires
        inode_decodes_to(b, x),
        inode_decodes_to(b, y),
    ensures
        x == y,
{
    broadcast use vstd::array::axiom_array_ext_equal, vstd::array::lemma_array_index;

    assert(x.uuid =~= y.uuid);
}

impl Inode {
    /// Decodes an inode core from the first [`XFS_DINODE_SIZE_V3`] bytes.
    ///
    /// # Errors
    ///
    /// * [`ParseError::BufferTooSmall`] - fewer than [`XFS_DINODE_SIZE_V3`] bytes.
    /// * [`ParseError::InvalidMagic`] - the magic number is not [`XFS_DINODE_MAGIC`].
    pub fn parse(bytes: &[u8]) -> (r: Result<Self, ParseError>)
        ensures
            match r {
                Ok(n) => inode_error(bytes@) is None && inode_decodes_to(bytes@, n),
                Err(e) => inode_error(bytes@) == Some(e),
            },
    {
        if bytes.len() < XFS_DINODE_SIZE_V3 {
            return Err(
                ParseError::BufferTooSmall { expected: XFS_DINODE_SIZE_V3, actual: bytes.len() },
            );
        }
        let magic = be_u16(bytes, 0);
        if magic != XFS_DINODE_MAGIC {
            return Err(
                ParseError::InvalidMagic {
                    expected: XFS_DINODE_MAGIC as u32,
                    actual: magic as u32,
                },
            );
        }
        let projid_lo = be_u16(bytes, 20);
        let projid_hi = be_u16(bytes, 22);
        let projid = (projid_hi as u32) * 0x1_0000 + (projid_lo as u32);
        let mut uuid = [0u8; 16];
        copy_out(&mut uuid, bytes, 160);
        Ok(
            Self {
                magic,
                mode: be_u16(bytes, 2),
                version: bytes[4],
                format: InodeFormat::from_u8(bytes[5]),
                onlink: be_u16(bytes, 6),
                uid: be_u32(bytes, 8),
                gid: be_u32(bytes, 12),
                nlink: be_u32(bytes, 16),
                projid,
                flushiter: be_u16(bytes, 30),
                atime: (be_u32(bytes, 32) as i32, be_u32(bytes, 36)),
                mtime: (be_u32(bytes, 40) as i32, be_u32(bytes, 44)),
                ctime: (be_u32(bytes, 48) as i32, be_u32(bytes, 52)),
                size: be_u64(bytes, 56) as i64,
                nblocks: be_u64(bytes, 64),
                extsize: be_u32(bytes, 72),
                nextents: be_u32(bytes, 76),
                anextents: be_u16(bytes, 80),
                forkoff: bytes[82],
                aformat: InodeFormat::from_u8(bytes[83]),
                dmevmask: be_u32(bytes, 84),
                dmstate: be_u16(bytes, 88),
                flags: be_u16(bytes, 90),
                generation: be_u32(bytes, 92),
                next_unlinked: be_u32(bytes, 96),
                crc: le_u32(bytes, 100),
                change_count: be_u64(bytes, 104),
                lsn: be_u64(bytes, 112),
                flags2: be_u64(bytes, 120),
                cowextsize: be_u32(bytes, 128),
                crtime: (be_u32(bytes, 144) as i32, be_u32(bytes, 148)),
                ino: be_u64(bytes, 152),
                uuid,
            },
        )
    }

    /// Encodes the inode core into the first [`XFS_DINODE_SIZE_V3`] bytes. The
    /// checksum field is left for [`crate::crc::write_xfs_crc`].
    ///
    /// # Errors
    ///
    /// * [`ParseError::BufferTooSmall`] - fewer than [`XFS_DINODE_SIZE_V3`]
    ///   bytes; `bytes` is then left alone.
    pub fn serialize(&self, bytes: &mut [u8]) -> (r: Result<(), ParseError>)
        ensures
            final(bytes)@.len() == old(bytes)@.len(),
            match r {
                Ok(()) => old(bytes)@.len() >= XFS_DINODE_SIZE_V3 && final(bytes)@ == inode_image(
                    *self,
                    old(bytes)@,
                ),
                Err(e) => old(bytes)@.len() < XFS_DINODE_SIZE_V3 && e
                    == ParseError::BufferTooSmall {
                    expected: XFS_DINODE_SIZE_V3,
                    actual: old(bytes)@.len() as usize,
                } && final(bytes)@ == old(bytes)@,
            },
    {
        if bytes.len() < XFS_DINODE_SIZE_V3 {
            return Err(
                ParseError::BufferTooSmall { expected: XFS_DINODE_SIZE_V3, actual: bytes.len() },
            );
        }
        put_be16(bytes, 0, self.magic);
        put_be16(bytes, 2, self.mode);
        put_u8(bytes, 4, self.version);
        put_u8(bytes, 5, self.format.to_u8());
        put_be16(bytes, 6, self.onlink);
        put_be32(bytes, 8, self.uid);
        put_be32(bytes, 12, self.gid);
        put_be32(bytes, 16, self.nlink);
        put_be16(bytes, 20, (self.projid % 0x1_0000) as u16);
        put_be16(bytes, 22, (self.projid / 0x1_0000) as u16);
        fill_zero(bytes, 24, 30);
        put_be16(bytes, 30, self.flushiter);
        put_be32(bytes, 32, self.atime.0 as u32);
        put_be32(bytes, 36, self.atime.1);
        put_be32(bytes, 40, self.mtime.0 as u32);
        put_be32(bytes, 44, self.mtime.1);
        put_be32(bytes, 48, self.ctime.0 as u32);
        put_be32(bytes, 52, self.ctime.1);
        put_be64(bytes, 56, self.size as u64);
        put_be64(bytes, 64, self.nblocks);
        put_be32(bytes, 72, self.extsize);
        put_be32(bytes, 76, self.nextents);
        put_be16(bytes, 80, self.anextents);
        put_u8(bytes, 82, self.forkoff);
        put_u8(bytes, 83, self.aformat.to_u8());
        put_be32(bytes, 84, self.dmevmask);
        put_be16(bytes, 88, self.dmstate);
        put_be16(bytes, 90, self.flags);
        put_be32(bytes, 92, self.generation);
        put_be32(bytes, 96, self.next_unlinked);
        put_be64(bytes, 104, self.change_count);
        put_be64(bytes, 112, self.lsn);
        put_be64(bytes, 120, self.flags2);
        put_be32(bytes, 128, self.cowextsize);
        fill_zero(bytes, 132, 144);
        put_be32(bytes, 144, self.crtime.0 as u32);
        put_be32(bytes, 148, self.crtime.1);
        put_be64(bytes, 152, self.ino);
        put_bytes(bytes, 160, self.uuid.as_slice());
        proof {
            reveal(inode_image_ids);
            reveal(inode_image_times);
            reveal(inode_image_body);
            reveal(inode_image_tail);
        }
        Ok(())
    }
}

} // verus!
