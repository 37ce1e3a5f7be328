//! The decisions that a file-system-in-userspace front end makes about the
//! reader's results: which inode the kernel's numbers stand for, what kind of
//! file an inode or a directory entry is, and which entry a name looks up.
use crate::on_disk::inode::Inode;
use crate::reader::DirEntry;
use vstd::prelude::*;

verus! {

/// The inode number that the kernel gives the root of a mounted filesystem.
pub const FUSE_ROOT_ID: u64 = 1;

/// The kinds of file that a front end reports.
#[derive(Debug, Clone, Copy, PartialEq, Eq)]
pub enum FileKind {
    Directory,
    Symlink,
    CharDevice,
    BlockDevice,
    NamedPipe,
    Socket,
    RegularFile,
}

/// The filesystem inode that the kernel's inode number `ino` stands for: the
/// kernel's root is the filesystem's root inode `rootino`.
pub open spec fn fs_ino_of(rootino: u64, ino: u64) -> u64 {
    if ino == FUSE_ROOT_ID {
        rootino
    } else {
        ino
    }
}

/// The kernel's inode number for the filesystem inode `ino`: the root inode
/// `rootino` is presented as the kernel's root.
pub open spec fn kernel_ino_of(rootino: u64, ino: u64) -> u64 {
    if ino == rootino {
        FUSE_ROOT_ID
    } else {
        ino
    }
}

/// The filesystem inode that the kernel's inode number `ino` stands for.
pub fn map_ino(rootino: u64, ino: u64) -> (r: u64)
    ensures
        r == fs_ino_of(rootino, ino),
{
    if ino == FUSE_ROOT_ID {
        rootino
    } else {
        ino
    }
}

/// The kernel's inode number for the filesystem inode `ino`.
pub fn kernel_ino(rootino: u64, ino: u64) -> (r: u64)
    ensures
        r == kernel_ino_of(rootino, ino),
{
    if ino == rootino {
        FUSE_ROOT_ID
    } else {
        ino
    }
}

/// Presenting an inode to the kernel and mapping the kernel's number back
/// gives the inode again, for every inode but the one whose number is the
/// kernel's root number (when that is not the root inode itself).
pub proof fn lemma_kernel_ino_roundtrip(rootino: u64, ino: u64)
    requires
        ino != FUSE_ROOT_ID || ino == rootino,
    ensures
        fs_ino_of(rootino, kernel_ino_of(rootino, ino)) == ino,
{
}

/// The kind of file that the mode `mode` of an inode gives (its top four
/// bits); modes of no other kind read as regular files.
pub open spec fn kind_of_mode(mode: u16) -> FileKind {
    let t = mode & 0xf000;
    if t == 0x4000 {
        FileKind::Directory
    } else if t == 0xa000 {
        FileKind::Symlink
    } else if t == 0x2000 {
        FileKind::CharDevice
    } else if t == 0x6000 {
        FileKind::BlockDevice
    } else if t == 0x1000 {
        FileKind::NamedPipe
    } else if t == 0xc000 {
        FileKind::Socket
    } else {
        FileKind::RegularFile
    }
}

/// The kind of file that an inode of mode `mode` is.
pub fn file_kind_of_mode(mode: u16) -> (r: FileKind)
    ensures
        r == kind_of_mode(mode),
{
    let t = mode & 0xf000;
    if t == 0x4000 {
        FileKind::Directory
    } else if t == 0xa000 {
        FileKind::Symlink
    } else if t == 0x2000 {
        FileKind::CharDevice
    } else if t == 0x6000 {
        FileKind::BlockDevice
    } else if t == 0x1000 {
        FileKind::NamedPipe
    } else if t == 0xc000 {
        FileKind::Socket
    } else {
        FileKind::RegularFile
    }
}

/// The permission bits of the mode `mode`.
pub fn perm_of_mode(mode: u16) -> (r: u16)
    ensures
        r == mode & 0x0fff,
{
    mode & 0x0fff
}

/// The kind of file that the file type byte `ftype` of a directory entry
/// gives; unknown types read as regular files.
pub open spec fn kind_of_ftype(ftype: u8) -> FileKind {
    if ftype == 2 {
        FileKind::Directory
    } else if ftype == 3 {
        FileKind::Symlink
    } else if ftype == 4 {
        FileKind::CharDevice
    } else if ftype == 5 {
        FileKind::BlockDevice
    } else if ftype == 6 {
        FileKind::NamedPipe
    } else if ftype == 7 {
        FileKind::Socket
    } else {
        FileKind::RegularFile
    }
}

/// The kind of file that a directory entry with file type `ftype` names.
pub fn file_kind_of_ftype(ftype: u8) -> (r: FileKind)
    ensures
        r == kind_of_ftype(ftype),
{
    match ftype {
        2 => FileKind::Directory,
        3 => FileKind::Symlink,
        4 => FileKind::CharDevice,
        5 => FileKind::BlockDevice,
        6 => FileKind::NamedPipe,
        7 => FileKind::Socket,
        _ => FileKind::RegularFile,
    }
}

/// The kernel's inode number and kind for a directory entry naming `ino` with
/// file type `ftype`: the root inode is presented as the kernel's root, and
/// always as a directory.
pub fn entry_for_kernel(rootino: u64, ino: u64, ftype: u8) -> (r: (u64, FileKind))
    ensures
        r == (
            kernel_ino_of(rootino, ino),
            if ino == rootino {
                FileKind::Directory
            } else {
                kind_of_ftype(ftype)
            },
        ),
{
    if ino == rootino {
        (FUSE_ROOT_ID, FileKind::Directory)
    } else {
        (ino, file_kind_of_ftype(ftype))
    }
}

/// The position of the first entry of `entries` named `name`, or `None`.
pub fn find_entry(entries: &[DirEntry], name: &String) -> (r: Option<usize>)
    ensures
        match r {
            Some(i) => i < entries@.len() && entries@[i as int].name@ == name@ && forall|j: int|
                0 <= j < i ==> #[trigger] entries@[j].name@ != name@,
            None => forall|j: int| 0 <= j < entries@.len() ==> #[trigger] entries@[j].name@ != name@,
        },
{
    let mut i: usize = 0;
    while i < entries.len()
        invariant
            i <= entries@.len(),
            forall|j: int| 0 <= j < i ==> #[trigger] entries@[j].name@ != name@,
        decreases entries@.len() - i,
    {
        if entries[i].name == *name {
            return Some(i);
        }
        i = i + 1;
    }
    None
}

/// The most bytes of a symbolic link's target that a front end reads.
pub const SYMLINK_READ_MAX: u32 = 4096;

/// The attributes of an inode as a front end reports them; times are whole
/// seconds since the epoch.
#[derive(Debug, Clone, Copy, PartialEq, Eq)]
pub struct InodeAttr {
    pub ino: u64,
    pub size: u64,
    pub blocks: u64,
    pub atime: u64,
    pub mtime: u64,
    pub ctime: u64,
    pub crtime: u64,
    pub kind: FileKind,
    pub perm: u16,
    pub nlink: u32,
    pub uid: u32,
    pub gid: u32,
}

/// The attributes of `n`: its size and seconds taken as unsigned 64-bit
/// numbers bit for bit, its kind and permission bits from its mode.
pub open spec fn attr_of(n: Inode) -> InodeAttr {
    InodeAttr {
        ino: n.ino,
        size: n.size as u64,
        blocks: n.nblocks,
        atime: n.atime.0 as u64,
        mtime: n.mtime.0 as u64,
        ctime: n.ctime.0 as u64,
        crtime: n.crtime.0 as u64,
        kind: kind_of_mode(n.mode),
        perm: n.mode & 0x0fff,
        nlink: n.nlink,
        uid: n.uid,
        gid: n.gid,
    }
}

/// The attributes of the inode `inode`.
pub fn inode_to_attr(inode: &Inode) -> (a: InodeAttr)
    ensures
        a == attr_of(*inode),
{
    InodeAttr {
        ino: inode.ino,
        size: inode.size as u64,
        blocks: inode.nblocks,
        atime: inode.atime.0 as u64,
        mtime: inode.mtime.0 as u64,
        ctime: inode.ctime.0 as u64,
        crtime: inode.crtime.0 as u64,
        kind: file_kind_of_mode(inode.mode),
        perm: perm_of_mode(inode.mode),
        nlink: inode.nlink,
        uid: inode.uid,
        gid: inode.gid,
    }
}

/// The attributes that the kernel is given for filesystem inode `ino`, read
/// as `inode`: the root inode carries the kernel's root number.
pub fn kernel_attr(rootino: u64, ino: u64, inode: &Inode) -> (a: InodeAttr)
    ensures
        a == (InodeAttr {
            ino: if ino == rootino {
                FUSE_ROOT_ID
            } else {
                inode.ino
            },
            ..attr_of(*inode)
        }),
{
    let mut a = inode_to_attr(inode);
    if ino == rootino {
        a.ino = FUSE_ROOT_ID;
    }
    a
}

/// A directory entry as a listing presents it to the kernel: inode number,
/// the offset the listing goes on from after it, kind and name.
#[derive(Debug, Clone, PartialEq, Eq)]
pub struct KernelDirEntry {
    pub ino: u64,
    pub next_offset: u64,
    pub kind: FileKind,
    pub name: String,
}

/// The entry `e`, the `i`th of its directory, as the kernel is given it.
pub open spec fn kernel_dir_entry_of(rootino: u64, e: DirEntry, i: int) -> (u64, u64, FileKind, Seq<char>) {
    (
        kernel_ino_of(rootino, e.ino),
        (i + 1) as u64,
        if e.ino == rootino {
            FileKind::Directory
        } else {
            kind_of_ftype(e.ftype)
        },
        e.name@,
    )
}

/// The entries `entries` from position `offset` on, as the kernel is given
/// them.
pub open spec fn kernel_listing(rootino: u64, entries: Seq<DirEntry>, offset: int) -> Seq<
    (u64, u64, FileKind, Seq<char>),
> {
    if offset >= entries.len() {
        Seq::empty()
    } else {
        Seq::new(
            (entries.len() - offset) as nat,
            |k: int| kernel_dir_entry_of(rootino, entries[offset + k], offset + k),
        )
    }
}

/// `v` as the specifications see it.
pub open spec fn kernel_dir_entry_views(v: Seq<KernelDirEntry>) -> Seq<(u64, u64, FileKind, Seq<char>)> {
    v.map_values(|e: KernelDirEntry| (e.ino, e.next_offset, e.kind, e.name@))
}

/// The listing of a directory with entries `entries` that the kernel reads
/// from offset `offset`: the entries from that position on, each with the
/// offset that follows it.
pub fn readdir_entries(rootino: u64, entries: &[DirEntry], offset: u64) -> (r: Vec<KernelDirEntry>)
    ensures
        kernel_dir_entry_views(r@) == kernel_listing(rootino, entries@, offset as int),
{
    let mut out: Vec<KernelDirEntry> = Vec::new();
    if offset >= entries.len() as u64 {
        assert(kernel_dir_entry_views(out@) =~= kernel_listing(rootino, entries@, offset as int));
        return out;
    }
    let start = offset as usize;
    let mut i: usize = start;
    while i < entries.len()
        invariant
            start <= i <= entries@.len(),
            start < entries@.len(),
            start == offset,
            out@.len() == i - start,
            kernel_dir_entry_views(out@) =~= kernel_listing(rootino, entries@, offset as int).take(
                (i - start) as int,
            ),
        decreases entries@.len() - i,
    {
        let e = &entries[i];
        let (ino, kind) = entry_for_kernel(rootino, e.ino, e.ftype);
        let item = KernelDirEntry { ino, next_offset: (i + 1) as u64, kind, name: e.name.clone() };
        out.push(item);
        assert(kernel_dir_entry_views(out@) =~= kernel_listing(rootino, entries@, offset as int).take(
            (i + 1 - start) as int,
        ));
        i = i + 1;
    }
    assert(kernel_listing(rootino, entries@, offset as int).take((i - start) as int) =~= kernel_listing(
        rootino,
        entries@,
        offset as int,
    ));
    out
}

/// A listing resumed from the offset that one of its entries carries goes on
/// with the entries after that one: the `j`th entry of a listing from `offset`
/// is the entry at position `offset + j`, and the listing from its next offset
/// is the rest of the listing from `offset`.
pub proof fn lemma_readdir_resume(rootino: u64, entries: Seq<DirEntry>, offset: int, j: int)
    requires
        0 <= offset,
        0 <= j < kernel_listing(rootino, entries, offset).len(),
        entries.len() < u64::MAX,
    ensures
        kernel_listing(rootino, entries, offset)[j] == kernel_dir_entry_of(
            rootino,
            entries[offset + j],
            offset + j,
        ),
        kernel_listing(rootino, entries, offset)[j].1 == offset + j + 1,
        kernel_listing(rootino, entries, kernel_listing(rootino, entries, offset)[j].1 as int)
            == kernel_listing(rootino, entries, offset).subrange(
            j + 1,
            kernel_listing(rootino, entries, offset).len() as int,
        ),
{
    let l = kernel_listing(rootino, entries, offset);
    let next = l[j].1 as int;
    assert(next == offset + j + 1);
    assert(kernel_listing(rootino, entries, next) =~= l.subrange(j + 1, l.len() as int));
}

} // verus!
