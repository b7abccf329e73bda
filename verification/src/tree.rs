//! The directory tree: making nodes, linking and unlinking names.
use vstd::prelude::*;
use crate::dir::{listing, remove_name, DirItem};
use crate::error::FsError;
use crate::inode::{FileAttr, FileKind, Inode, InodeView, LockState, Timestamp, UNLOCKED};
use crate::layout::{BLOCK_SIZE, ROOT_INODE};
use crate::mode::{as_file_kind, as_file_perm, kind_of_mode, make_mode};
use crate::model;
use crate::names::{name_bytes, Name};
use crate::store::{Meta, Txn};

verus! {

/// A result that carries an inode, with the inode as a mathematical value.
pub open spec fn inode_result(r: Result<Inode, FsError>) -> Result<InodeView, FsError> {
    match r {
        Ok(i) => Ok(i@),
        Err(e) => Err(e),
    }
}

impl Txn {
    /// Makes a node called `name` in `parent` and returns its inode. The
    /// inode counter advances before the name is looked at, so a name
    /// that is taken still uses up a number.
    pub fn make_inode(
        &mut self,
        parent: u64,
        name: Name,
        mode: u32,
        gid: u32,
        uid: u32,
        now: Timestamp,
    ) -> (r: Result<Inode, FsError>)
        requires
            model::counter_fits(old(self)@),
            kind_of_mode(mode) is Some,
        ensures
            (final(self)@, inode_result(r)) == model::make_inode(
                old(self)@,
                parent,
                name_bytes(name),
                mode,
                gid,
                uid,
                now,
            ),
    {
        let mut meta = match self.read_meta()? {
            Some(m) => m,
            None => Meta { inode_next: ROOT_INODE },
        };
        let ino: u64 = meta.inode_next;
        meta.inode_next = ino + 1;
        self.save_meta(&meta)?;

        let file_type = as_file_kind(mode);
        if parent >= ROOT_INODE {
            if self.get_index(parent, name.duplicate())?.is_some() {
                return Err(FsError::AlreadyExists);
            }
            self.set_index(parent, name.duplicate(), ino)?;

            let mut dir = self.read_dir(parent)?;
            let item = DirItem { ino, name: name.to_vec(), typ: file_type };
            proof {
                assert(listing(dir@.push(item)) =~= listing(dir@).push(item@));
            }
            dir.push(item);
            self.save_dir(parent, &dir, now)?;
        }
        let inode = Inode {
            file_attr: FileAttr {
                ino,
                size: 0,
                blocks: 0,
                atime: now,
                mtime: now,
                ctime: now,
                crtime: now,
                kind: file_type,
                perm: as_file_perm(mode),
                nlink: 1,
                uid,
                gid,
                rdev: 0,
                blksize: BLOCK_SIZE as u32,
                flags: 0,
            },
            lock_state: LockState::new(Vec::new(), UNLOCKED),
            inline_data: None,
        };
        self.save_inode(&inode)?;
        Ok(inode)
    }

    /// Makes a directory called `name` in `parent`, with an empty listing.
    pub fn mkdir(
        &mut self,
        parent: u64,
        name: Name,
        mode: u32,
        gid: u32,
        uid: u32,
        now: Timestamp,
    ) -> (r: Result<Inode, FsError>)
        requires
            model::counter_fits(old(self)@),
            kind_of_mode(model::dir_mode(mode)) is Some,
        ensures
            (final(self)@, inode_result(r)) == model::mkdir(
                old(self)@,
                parent,
                name_bytes(name),
                mode,
                gid,
                uid,
                now,
            ),
    {
        let dir_mode = make_mode(FileKind::Directory, as_file_perm(mode));
        let attr = self.make_inode(parent, name, dir_mode, gid, uid, now)?;
        let empty: Vec<DirItem> = Vec::new();
        proof {
            assert(listing(empty@) =~= Seq::empty());
        }
        self.save_dir(attr.file_attr.ino, &empty, now)?;
        Ok(attr)
    }

    /// Removes the entry `name` of `parent` and one link of its target.
    pub fn unlink(&mut self, parent: u64, name: Name, now: Timestamp) -> (r: Result<(), FsError>)
        ensures
            (final(self)@, r) == model::unlink(old(self)@, parent, name_bytes(name), now),
    {
        match self.get_index(parent, name.duplicate())? {
            None => Err(FsError::NotFound),
            Some(ino) => {
                self.remove_index(parent, name.duplicate())?;
                let parent_dir = self.read_dir(parent)?;
                let new_parent_dir = remove_name(&parent_dir, &name.to_vec());
                self.save_dir(parent, &new_parent_dir, now)?;

                let mut inode = self.read_inode(ino)?;
                inode.file_attr.nlink = inode.file_attr.nlink - 1;
                inode.file_attr.ctime = now;
                self.save_inode(&inode)?;
                Ok(())
            },
        }
    }

    /// Removes the empty directory `name` of `parent`.
    pub fn rmdir(&mut self, parent: u64, name: Name, now: Timestamp) -> (r: Result<(), FsError>)
        ensures
            (final(self)@, r) == model::rmdir(old(self)@, parent, name_bytes(name), now),
    {
        match self.get_index(parent, name.duplicate())? {
            None => Err(FsError::NotFound),
            Some(ino) => {
                let target_dir = self.read_dir(ino)?;
                if target_dir.len() != 0 {
                    return Err(FsError::DirectoryNotEmpty);
                }
                self.remove_index(parent, name.duplicate())?;
                self.remove_inode(ino)?;

                let parent_dir = self.read_dir(parent)?;
                let new_parent_dir = remove_name(&parent_dir, &name.to_vec());
                self.save_dir(parent, &new_parent_dir, now)?;
                Ok(())
            },
        }
    }

    /// Enters `ino` under `newname` in `newparent`. What the name
    /// resolved to before is removed first: a directory as by `rmdir`,
    /// anything else as by `unlink`.
    pub fn link(&mut self, ino: u64, newparent: u64, newname: Name, now: Timestamp) -> (r: Result<
        Inode,
        FsError,
    >)
        requires
            model::link_fits(old(self)@, ino),
        ensures
            (final(self)@, inode_result(r)) == model::link(
                old(self)@,
                ino,
                newparent,
                name_bytes(newname),
                now,
            ),
    {
        if let Some(old_ino) = self.get_index(newparent, newname.duplicate())? {
            let inode = self.read_inode(old_ino)?;
            match inode.file_attr.kind {
                FileKind::Directory => self.rmdir(newparent, newname.duplicate(), now)?,
                _ => self.unlink(newparent, newname.duplicate(), now)?,
            }
        }
        self.set_index(newparent, newname.duplicate(), ino)?;

        let mut inode = self.read_inode(ino)?;
        let mut dir = self.read_dir(newparent)?;
        let item = DirItem { ino, name: newname.to_vec(), typ: inode.file_attr.kind };
        proof {
            assert(listing(dir@.push(item)) =~= listing(dir@).push(item@));
        }
        dir.push(item);
        self.save_dir(newparent, &dir, now)?;
        inode.file_attr.nlink = inode.file_attr.nlink + 1;
        self.save_inode(&inode)?;
        Ok(inode)
    }
}

} // verus!
