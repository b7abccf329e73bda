//! Inode records and their mathematical view.
use vstd::prelude::*;
use crate::layout::{block_count, blocks_for};

verus! {

/// A point in time: whole seconds and nanoseconds since the epoch.
#[derive(Clone, Copy, Debug, PartialEq, Eq, Structural)]
pub struct Timestamp {
    pub secs: u64,
    pub nanos: u32,
}

/// What kind of file an inode is.
#[derive(Clone, Copy, Debug, PartialEq, Eq, Structural)]
pub enum FileKind {
    NamedPipe,
    CharDevice,
    BlockDevice,
    Directory,
    RegularFile,
    Symlink,
    Socket,
}

/// The attributes of a file.
#[derive(Clone, Copy, Debug, PartialEq, Eq, Structural)]
pub struct FileAttr {
    pub ino: u64,
    pub size: u64,
    pub blocks: u64,
    pub atime: Timestamp,
    pub mtime: Timestamp,
    pub ctime: Timestamp,
    pub crtime: Timestamp,
    pub kind: FileKind,
    pub perm: u16,
    pub nlink: u32,
    pub uid: u32,
    pub gid: u32,
    pub rdev: u32,
    pub blksize: u32,
    pub flags: u32,
}

/// Lock type of an inode that nobody holds a lock on.
pub const UNLOCKED: i32 = 2;

/// Advisory lock state: a storage slot that this layer carries along.
#[derive(Clone, Debug, PartialEq, Eq)]
pub struct LockState {
    pub owner_set: Vec<u64>,
    pub lk_type: i32,
}

pub struct LockStateView {
    pub owner_set: Seq<u64>,
    pub lk_type: i32,
}

impl View for LockState {
    type V = LockStateView;

    open spec fn view(&self) -> LockStateView {
        LockStateView { owner_set: self.owner_set@, lk_type: self.lk_type }
    }
}

/// An inode record.
#[derive(Clone, Debug, PartialEq, Eq)]
pub struct Inode {
    pub file_attr: FileAttr,
    pub lock_state: LockState,
    pub inline_data: Option<Vec<u8>>,
}

pub struct InodeView {
    pub file_attr: FileAttr,
    pub lock_state: LockStateView,
    pub inline_data: Option<Seq<u8>>,
}

impl View for Inode {
    type V = InodeView;

    open spec fn view(&self) -> InodeView {
        InodeView {
            file_attr: self.file_attr,
            lock_state: self.lock_state@,
            inline_data: match self.inline_data {
                Some(d) => Some(d@),
                None => None,
            },
        }
    }
}

impl InodeView {
    /// What a record stored under inode number `ino` must satisfy: it
    /// carries that number and has a link.
    pub open spec fn storable(self, ino: u64) -> bool {
        self.file_attr.nlink > 0 && self.file_attr.ino == ino
    }

    /// The record with its size set, and its block count with it.
    pub open spec fn with_size(self, size: u64) -> InodeView {
        InodeView {
            file_attr: FileAttr { size: size, blocks: blocks_for(size) as u64, ..self.file_attr },
            ..self
        }
    }
}

/// Copies a byte vector.
pub fn copy_bytes(src: &Vec<u8>) -> (out: Vec<u8>)
    ensures
        out@ == src@,
{
    let mut out: Vec<u8> = Vec::new();
    let mut i: usize = 0;
    while i < src.len()
        invariant
            i <= src.len(),
            out@ == src@.take(i as int),
        decreases src.len() - i,
    {
        out.push(src[i]);
        i += 1;
        assert(src@.take(i as int) =~= src@.take(i - 1).push(src@[i - 1]));
    }
    assert(src@.take(src.len() as int) =~= src@);
    out
}

impl LockState {
    pub fn new(owner_set: Vec<u64>, lk_type: i32) -> (s: LockState)
        ensures
            s@ == (LockStateView { owner_set: owner_set@, lk_type: lk_type }),
    {
        LockState { owner_set, lk_type }
    }

    /// An equal lock state.
    pub fn duplicate(&self) -> (out: LockState)
        ensures
            out@ == self@,
    {
        let mut owners: Vec<u64> = Vec::new();
        let mut i: usize = 0;
        while i < self.owner_set.len()
            invariant
                i <= self.owner_set.len(),
                owners@ == self.owner_set@.take(i as int),
            decreases self.owner_set.len() - i,
        {
            owners.push(self.owner_set[i]);
            i += 1;
            assert(self.owner_set@.take(i as int) =~= self.owner_set@.take(i - 1).push(
                self.owner_set@[i - 1],
            ));
        }
        assert(self.owner_set@.take(self.owner_set.len() as int) =~= self.owner_set@);
        LockState { owner_set: owners, lk_type: self.lk_type }
    }
}

impl Inode {
    /// An equal record.
    pub fn duplicate(&self) -> (out: Inode)
        ensures
            out@ == self@,
    {
        let inline_data = match &self.inline_data {
            Some(d) => Some(copy_bytes(d)),
            None => None,
        };
        Inode { file_attr: self.file_attr, lock_state: self.lock_state.duplicate(), inline_data }
    }

    /// Sets the size, and the block count that follows from it.
    pub fn set_size(&mut self, size: u64)
        ensures
            final(self)@ == old(self)@.with_size(size),
    {
        self.file_attr.size = size;
        self.file_attr.blocks = block_count(size);
    }
}

} // verus!
