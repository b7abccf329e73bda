//! File mode words: the kind of a file and its permission bits.
use vstd::prelude::*;
use crate::inode::FileKind;

verus! {

pub const S_IFMT: u32 = 0o170000;
pub const S_IFSOCK: u32 = 0o140000;
pub const S_IFLNK: u32 = 0o120000;
pub const S_IFREG: u32 = 0o100000;
pub const S_IFBLK: u32 = 0o060000;
pub const S_IFDIR: u32 = 0o040000;
pub const S_IFCHR: u32 = 0o020000;
pub const S_IFIFO: u32 = 0o010000;
pub const S_ISUID: u32 = 0o4000;
pub const S_ISGID: u32 = 0o2000;

/// The kind that the type bits of a mode word name, if they name one.
pub open spec fn kind_of_mode(mode: u32) -> Option<FileKind> {
    let t = mode & S_IFMT;
    if t == S_IFREG {
        Some(FileKind::RegularFile)
    } else if t == S_IFLNK {
        Some(FileKind::Symlink)
    } else if t == S_IFDIR {
        Some(FileKind::Directory)
    } else if t == S_IFIFO {
        Some(FileKind::NamedPipe)
    } else if t == S_IFBLK {
        Some(FileKind::BlockDevice)
    } else if t == S_IFCHR {
        Some(FileKind::CharDevice)
    } else if t == S_IFSOCK {
        Some(FileKind::Socket)
    } else {
        None
    }
}

/// The low sixteen bits of a mode word without set-user-id and set-group-id.
pub open spec fn perm_of_mode(mode: u32) -> u16 {
    (mode & 0xF3FF) as u16
}

/// The type bits that stand for a kind.
pub open spec fn kind_bits(kind: FileKind) -> u32 {
    match kind {
        FileKind::NamedPipe => S_IFIFO,
        FileKind::CharDevice => S_IFCHR,
        FileKind::BlockDevice => S_IFBLK,
        FileKind::Directory => S_IFDIR,
        FileKind::RegularFile => S_IFREG,
        FileKind::Symlink => S_IFLNK,
        FileKind::Socket => S_IFSOCK,
    }
}

/// The mode word made of a kind's type bits and permission bits.
pub open spec fn mode_of(kind: FileKind, perm: u16) -> u32 {
    kind_bits(kind) | (perm as u32)
}

/// The kind that a mode word names, or `None` where its type bits name none.
pub fn file_kind(mode: u32) -> (k: Option<FileKind>)
    ensures
        k == kind_of_mode(mode),
{
    let t: u32 = mode & S_IFMT;
    if t == S_IFREG {
        Some(FileKind::RegularFile)
    } else if t == S_IFLNK {
        Some(FileKind::Symlink)
    } else if t == S_IFDIR {
        Some(FileKind::Directory)
    } else if t == S_IFIFO {
        Some(FileKind::NamedPipe)
    } else if t == S_IFBLK {
        Some(FileKind::BlockDevice)
    } else if t == S_IFCHR {
        Some(FileKind::CharDevice)
    } else if t == S_IFSOCK {
        Some(FileKind::Socket)
    } else {
        None
    }
}

/// The kind that a mode word names.
pub fn as_file_kind(mode: u32) -> (k: FileKind)
    requires
        kind_of_mode(mode) is Some,
    ensures
        Some(k) == kind_of_mode(mode),
{
    match file_kind(mode) {
        Some(k) => k,
        None => FileKind::RegularFile,
    }
}

/// The permission bits of a mode word.
pub fn as_file_perm(mode: u32) -> (p: u16)
    ensures
        p == perm_of_mode(mode),
{
    let low: u32 = mode & 0xF3FF;
    assert(low <= 0xFFFF) by (bit_vector)
        requires
            low == mode & 0xF3FF,
    ;
    low as u16
}

/// The mode word of a kind and permission bits.
pub fn make_mode(kind: FileKind, perm: u16) -> (m: u32)
    ensures
        m == mode_of(kind, perm),
{
    let bits: u32 = match kind {
        FileKind::NamedPipe => S_IFIFO,
        FileKind::CharDevice => S_IFCHR,
        FileKind::BlockDevice => S_IFBLK,
        FileKind::Directory => S_IFDIR,
        FileKind::RegularFile => S_IFREG,
        FileKind::Symlink => S_IFLNK,
        FileKind::Socket => S_IFSOCK,
    };
    bits | (perm as u32)
}

/// A mode word made of a kind and of permission bits below the type bits
/// names that kind again.
pub proof fn lemma_mode_round_trip(kind: FileKind, perm: u16)
    requires
        perm < 0o10000,
    ensures
        kind_of_mode(mode_of(kind, perm)) == Some(kind),
{
    let p = perm as u32;
    let b = kind_bits(kind);
    assert((b | p) & 0o170000 == b) by (bit_vector)
        requires
            p < 0o10000,
            b == 0o140000 || b == 0o120000 || b == 0o100000 || b == 0o060000 || b == 0o040000 || b
                == 0o020000 || b == 0o010000,
    ;
}

} // verus!
