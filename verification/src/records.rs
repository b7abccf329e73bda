//! The record tables: metadata, inodes, the name index and directory
//! listings.
use vstd::prelude::*;
use crate::dir::{decode, encode, listing, DirItem};
use crate::error::FsError;
use crate::inode::{Inode, Timestamp};
use crate::model;
use crate::names::{name_bytes, Name};
use crate::store::{Key, Meta, Record, Txn};

verus! {

impl Txn {
    /// Resolves `name` in `parent` through the index.
    pub fn get_index(&self, parent: u64, name: Name) -> (r: Result<Option<u64>, FsError>)
        ensures
            r == model::get_index(self@, parent, name_bytes(name)),
    {
        let key = Key::Index(parent, name.to_vec());
        match self.get(&key)? {
            None => Ok(None),
            Some(Record::Index(ino)) => Ok(Some(*ino)),
            Some(_) => Err(FsError::Corrupt),
        }
    }

    /// Points the index entry of `name` in `parent` at `ino`.
    pub fn set_index(&mut self, parent: u64, name: Name, ino: u64) -> (r: Result<(), FsError>)
        ensures
            r is Ok,
            final(self)@ == model::set_index(old(self)@, parent, name_bytes(name), ino),
    {
        self.put(Key::Index(parent, name.to_vec()), Record::Index(ino));
        Ok(())
    }

    /// Removes the index entry of `name` in `parent`.
    pub fn remove_index(&mut self, parent: u64, name: Name) -> (r: Result<(), FsError>)
        ensures
            r is Ok,
            final(self)@ == model::remove_index(old(self)@, parent, name_bytes(name)),
    {
        self.delete(Key::Index(parent, name.to_vec()));
        Ok(())
    }

    /// Resolves a name that has to be there.
    pub fn lookup(&self, parent: u64, name: Name) -> (r: Result<u64, FsError>)
        ensures
            r == model::lookup(self@, parent, name_bytes(name)),
    {
        match self.get_index(parent, name)? {
            None => Err(FsError::NotFound),
            Some(ino) => Ok(ino),
        }
    }

    /// Reads the inode record of `ino`.
    pub fn read_inode(&self, ino: u64) -> (r: Result<Inode, FsError>)
        ensures
            match r {
                Ok(i) => model::read_inode(self@, ino) == Ok::<_, FsError>(i@),
                Err(e) => model::read_inode(self@, ino) == Err::<crate::inode::InodeView, _>(e),
            },
    {
        let key = Key::Inode(ino);
        match self.get(&key)? {
            None => Err(FsError::InodeMissing { inode: ino }),
            Some(Record::Inode(i)) => {
                if i.file_attr.nlink > 0 && i.file_attr.ino == ino {
                    Ok(i.duplicate())
                } else {
                    Err(FsError::Corrupt)
                }
            },
            Some(_) => Err(FsError::Corrupt),
        }
    }

    /// Persists an inode record; one without links is removed instead.
    pub fn save_inode(&mut self, inode: &Inode) -> (r: Result<(), FsError>)
        ensures
            r is Ok,
            final(self)@ == model::save_inode(old(self)@, inode@),
    {
        let key = Key::Inode(inode.file_attr.ino);
        if inode.file_attr.nlink == 0 {
            self.delete(key);
        } else {
            self.put(key, Record::Inode(inode.duplicate()));
        }
        Ok(())
    }

    /// Removes the inode record of `ino`.
    pub fn remove_inode(&mut self, ino: u64) -> (r: Result<(), FsError>)
        ensures
            r is Ok,
            final(self)@ == model::remove_inode(old(self)@, ino),
    {
        self.delete(Key::Inode(ino));
        Ok(())
    }

    /// Reads the metadata record, if there is one.
    pub fn read_meta(&self) -> (r: Result<Option<Meta>, FsError>)
        ensures
            r == model::read_meta(self@),
    {
        match self.get(&Key::Meta)? {
            None => Ok(None),
            Some(Record::Meta(m)) => Ok(Some(*m)),
            Some(_) => Err(FsError::Corrupt),
        }
    }

    /// Writes the metadata record.
    pub fn save_meta(&mut self, meta: &Meta) -> (r: Result<(), FsError>)
        ensures
            r is Ok,
            final(self)@ == model::save_meta(old(self)@, *meta),
    {
        self.put(Key::Meta, Record::Meta(*meta));
        Ok(())
    }

    /// Reads the listing of directory `ino`.
    pub fn read_dir(&mut self, ino: u64) -> (r: Result<Vec<DirItem>, FsError>)
        ensures
            *final(self) == *old(self),
            match r {
                Ok(d) => model::read_dir(old(self)@, ino) == Ok::<_, FsError>(listing(d@)),
                Err(e) => model::read_dir(old(self)@, ino) == Err::<Seq<crate::dir::DirItemView>, _>(e),
            },
    {
        let key = Key::Dir(ino);
        match self.get(&key)? {
            None => Err(FsError::MissingBlock { inode: ino, block: 0 }),
            Some(Record::Bytes(data)) => match decode(data) {
                Some(d) => Ok(d),
                None => Err(FsError::Corrupt),
            },
            Some(_) => Err(FsError::Corrupt),
        }
    }

    /// Writes the listing of directory `ino` and sets the directory's
    /// size to the length of the stored listing.
    pub fn save_dir(&mut self, ino: u64, dir: &Vec<DirItem>, now: Timestamp) -> (r: Result<
        (),
        FsError,
    >)
        ensures
            (final(self)@, r) == model::save_dir(old(self)@, ino, listing(dir@), now),
    {
        let data = encode(dir);
        let mut attr = self.read_inode(ino)?;
        attr.set_size(data.len() as u64);
        attr.file_attr.atime = now;
        attr.file_attr.mtime = now;
        attr.file_attr.ctime = now;
        self.save_inode(&attr)?;
        self.put(Key::Dir(ino), Record::Bytes(data));
        Ok(())
    }
}

} // verus!
