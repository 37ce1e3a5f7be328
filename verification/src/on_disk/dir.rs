//! Short-form directories: the directory entries stored inline in the data
//! fork of a directory inode.
use crate::endian::{be16, be32, be64, be_u16, be_u32, be_u64};
use crate::error::ParseError;
use vstd::prelude::*;

verus! {

#[derive(Debug, Clone, Copy, PartialEq, Eq)]
pub struct DirSfHeader {
    /// Number of entries with 4-byte inode numbers.
    pub count: u8,
    /// Number of entries with 8-byte inode numbers; when nonzero, every inode
    /// number in the directory takes 8 bytes.
    pub i8count: u8,
    pub parent: u64,
}

/// Why `b` does not start with a short-form directory header, or `None`.
pub open spec fn dir_header_error(b: Seq<u8>) -> Option<ParseError> {
    if b.len() < 3 {
        Some(ParseError::BufferTooSmall { expected: 3, actual: b.len() as usize })
    } else if b[1] == 0 && b.len() < 6 {
        Some(ParseError::BufferTooSmall { expected: 6, actual: b.len() as usize })
    } else if b[1] != 0 && b.len() < 10 {
        Some(ParseError::BufferTooSmall { expected: 10, actual: b.len() as usize })
    } else {
        None
    }
}

/// The size of the header at the start of `b`: the parent inode number takes
/// 4 bytes, or 8 when there are 8-byte inode numbers.
pub open spec fn dir_header_len(b: Seq<u8>) -> int {
    if b[1] == 0 {
        6
    } else {
        10
    }
}

/// The parent inode number in the header at the start of `b`.
pub open spec fn dir_header_parent(b: Seq<u8>) -> u64 {
    if b[1] == 0 {
        be32(b, 2) as u64
    } else {
        be64(b, 2)
    }
}

/// `h` is the short-form directory header at the start of `b`.
pub open spec fn dir_header_decodes_to(b: Seq<u8>, h: DirSfHeader) -> bool {
    &&& h.count == b[0]
    &&& h.i8count == b[1]
    &&& h.parent == dir_header_parent(b)
}

impl DirSfHeader {
    /// Decodes the header at the start of `bytes`, with the number of bytes it
    /// takes.
    ///
    /// # Errors
    ///
    /// * [`ParseError::BufferTooSmall`] - the header does not fit in `bytes`.
    pub fn parse(bytes: &[u8]) -> (r: Result<(Self, usize), ParseError>)
        ensures
            match r {
                Ok((h, used)) => dir_header_error(bytes@) is None && dir_header_decodes_to(
                    bytes@,
                    h,
                ) && used == dir_header_len(bytes@),
                Err(e) => dir_header_error(bytes@) == Some(e),
            },
    {
        if bytes.len() < 3 {
            return Err(ParseError::BufferTooSmall { expected: 3, actual: bytes.len() });
        }
        let count = bytes[0];
        let i8count = bytes[1];
        let (parent, consumed) = if i8count == 0 {
            if bytes.len() < 6 {
                return Err(ParseError::BufferTooSmall { expected: 6, actual: bytes.len() });
            }
            (be_u32(bytes, 2) as u64, 6)
        } else {
            if bytes.len() < 10 {
                return Err(ParseError::BufferTooSmall { expected: 10, actual: bytes.len() });
            }
            (be_u64(bytes, 2), 10)
        };
        Ok((Self { count, i8count, parent }, consumed))
    }
}

#[derive(Debug, Clone, PartialEq, Eq)]
pub struct DirSfEntry {
    pub namelen: u8,
    pub offset: u16,
    pub name: String,
    pub ftype: u8,
    pub inumber: u64,
}

/// What `String::from_utf8_lossy` makes of the bytes `bytes`: the characters
/// they encode in UTF-8, each ill-formed sequence replaced by U+FFFD.
pub uninterp spec fn utf8_lossy(bytes: Seq<u8>) -> Seq<char>;

/// Calls `String::from_utf8_lossy` and takes ownership of the result. The
/// contract names the result [`utf8_lossy`] of the bytes, and states the one
/// case that UTF-8 settles in a line: ASCII bytes stand for themselves.
#[verifier::external_body]
fn string_from_utf8_lossy(bytes: &[u8]) -> (s: String)
    ensures
        s@ == utf8_lossy(bytes@),
        (forall|i: int| 0 <= i < bytes@.len() ==> #[trigger] bytes@[i] < 0x80) ==> s@ == bytes@.map_values(
            |c: u8| c as char,
        ),
{
    String::from_utf8_lossy(bytes).into_owned()
}

/// The offset of the file type byte in the entry at the start of `b`: after
/// the 3-byte prefix and the name.
pub open spec fn dir_entry_ftype_off(b: Seq<u8>) -> int {
    3 + b[0]
}

/// The offset of the inode number in the entry at the start of `b`.
pub open spec fn dir_entry_ino_off(b: Seq<u8>, has_ftype: bool) -> int {
    dir_entry_ftype_off(b) + if has_ftype {
        1int
    } else {
        0int
    }
}

/// The size of an inode number in a directory with `i8count` 8-byte entries.
pub open spec fn dir_ino_size(i8count: u8) -> int {
    if i8count == 0 {
        4
    } else {
        8
    }
}

/// The size of the entry at the start of `b`.
pub open spec fn dir_entry_len(b: Seq<u8>, i8count: u8, has_ftype: bool) -> int {
    dir_entry_ino_off(b, has_ftype) + dir_ino_size(i8count)
}

/// Why `b` does not start with a short-form directory entry, or `None`.
pub open spec fn dir_entry_error(b: Seq<u8>, i8count: u8, has_ftype: bool) -> Option<ParseError> {
    if b.len() < 3 {
        Some(ParseError::BufferTooSmall { expected: 3, actual: b.len() as usize })
    } else if b.len() < dir_entry_ftype_off(b) {
        Some(
            ParseError::BufferTooSmall {
                expected: dir_entry_ftype_off(b) as usize,
                actual: b.len() as usize,
            },
        )
    } else if has_ftype && b.len() < dir_entry_ftype_off(b) + 1 {
        Some(
            ParseError::BufferTooSmall {
                expected: (dir_entry_ftype_off(b) + 1) as usize,
                actual: b.len() as usize,
            },
        )
    } else if b.len() < dir_entry_len(b, i8count, has_ftype) {
        Some(
            ParseError::BufferTooSmall {
                expected: dir_entry_len(b, i8count, has_ftype) as usize,
                actual: b.len() as usize,
            },
        )
    } else {
        None
    }
}

/// The name of the entry at the start of `b`.
pub open spec fn dir_entry_name(b: Seq<u8>) -> Seq<char> {
    utf8_lossy(b.subrange(3, dir_entry_ftype_off(b)))
}

/// The file type of the entry at the start of `b` (0 when the filesystem does
/// not record file types).
pub open spec fn dir_entry_ftype(b: Seq<u8>, has_ftype: bool) -> u8 {
    if has_ftype {
        b[dir_entry_ftype_off(b)]
    } else {
        0
    }
}

/// The inode number of the entry at the start of `b`.
pub open spec fn dir_entry_inumber(b: Seq<u8>, i8count: u8, has_ftype: bool) -> u64 {
    if i8count == 0 {
        be32(b, dir_entry_ino_off(b, has_ftype)) as u64
    } else {
        be64(b, dir_entry_ino_off(b, has_ftype))
    }
}

/// `e` is the entry at the start of `b`.
pub open spec fn dir_entry_decodes_to(b: Seq<u8>, i8count: u8, has_ftype: bool, e: DirSfEntry) -> bool {
    &&& e.namelen == b[0]
    &&& e.offset == be16(b, 1)
    &&& e.name@ == dir_entry_name(b)
    &&& e.ftype == dir_entry_ftype(b, has_ftype)
    &&& e.inumber == dir_entry_inumber(b, i8count, has_ftype)
}

impl DirSfEntry {
    /// Decodes the entry at the start of `bytes`, with the number of bytes it
    /// takes. Names that are not UTF-8 are decoded lossily.
    ///
    /// # Errors
    ///
    /// * [`ParseError::BufferTooSmall`] - the entry does not fit in `bytes`.
    pub fn parse(bytes: &[u8], i8count: u8, has_ftype: bool) -> (r: Result<(Self, usize), ParseError>)
        ensures
            match r {
                Ok((e, used)) => dir_entry_error(bytes@, i8count, has_ftype) is None
                    && dir_entry_decodes_to(bytes@, i8count, has_ftype, e) && used
                    == dir_entry_len(bytes@, i8count, has_ftype) && ((forall|i: int|
                    3 <= i < dir_entry_ftype_off(bytes@) ==> #[trigger] bytes@[i] < 0x80)
                    ==> e.name@ == bytes@.subrange(3, dir_entry_ftype_off(bytes@)).map_values(
                    |c: u8| c as char,
                )),
                Err(e) => dir_entry_error(bytes@, i8count, has_ftype) == Some(e),
            },
    {
        if bytes.len() < 3 {
            return Err(ParseError::BufferTooSmall { expected: 3, actual: bytes.len() });
        }
        let namelen = bytes[0];
        let offset = be_u16(bytes, 1);
        let mut pos: usize = 3;
        if bytes.len() < pos + namelen as usize {
            return Err(
                ParseError::BufferTooSmall { expected: pos + namelen as usize, actual: bytes.len() },
            );
        }
        let name_bytes = &bytes[pos..pos + namelen as usize];
        proof {
            if forall|i: int| 3 <= i < dir_entry_ftype_off(bytes@) ==> #[trigger] bytes@[i] < 0x80 {
                assert forall|i: int| 0 <= i < name_bytes@.len() implies #[trigger] name_bytes@[i] < 0x80 by {
                    assert(name_bytes@[i] == bytes@[3 + i]);
                }
            }
        }
        let name = string_from_utf8_lossy(name_bytes);
        pos = pos + namelen as usize;
        let ftype = if has_ftype {
            if bytes.len() < pos + 1 {
                return Err(ParseError::BufferTooSmall { expected: pos + 1, actual: bytes.len() });
            }
            let f = bytes[pos];
            pos = pos + 1;
            f
        } else {
            0
        };
        let (inumber, inosize) = if i8count == 0 {
            if bytes.len() < pos + 4 {
                return Err(ParseError::BufferTooSmall { expected: pos + 4, actual: bytes.len() });
            }
            (be_u32(bytes, pos) as u64, 4)
        } else {
            if bytes.len() < pos + 8 {
                return Err(ParseError::BufferTooSmall { expected: pos + 8, actual: bytes.len() });
            }
            (be_u64(bytes, pos), 8)
        };
        pos = pos + inosize;
        Ok((Self { namelen, offset, name, ftype, inumber }, pos))
    }
}

/// A short-form entry is laid out as: the name length `l`, two bytes of
/// offset, the `l` bytes of the name, the file type byte where the filesystem
/// records file types, and the inode number, 4 bytes or, with 8-byte inode
/// numbers, 8; it takes exactly those bytes. Without recorded file types the
/// file type is 0.
pub proof fn lemma_dir_entry_layout(b: Seq<u8>, i8count: u8, has_ftype: bool, e: DirSfEntry)
    requires
        dir_entry_error(b, i8count, has_ftype) is None,
        dir_entry_decodes_to(b, i8count, has_ftype, e),
    ensures
        ({
            let l = b[0] as int;
            let at: int = if has_ftype {
                4 + l
            } else {
                3 + l
            };
            &&& e.namelen == b[0]
            &&& e.name@ == utf8_lossy(b.subrange(3, 3 + l))
            &&& e.ftype == if has_ftype {
                b[3 + l]
            } else {
                0u8
            }
            &&& e.inumber == if i8count == 0 {
                be32(b, at) as u64
            } else {
                be64(b, at)
            }
            &&& dir_entry_len(b, i8count, has_ftype) == at + if i8count == 0 {
                4int
            } else {
                8int
            }
            &&& at + if i8count == 0 {
                4int
            } else {
                8int
            } <= b.len()
        }),
{
}

} // verus!
