use bytes::Bytes;
use tifs::dir::{encode, DirItem};
use tifs::error::{FsError, Slot};
use tifs::inode::{FileAttr, FileKind, Inode, LockState, Timestamp, UNLOCKED};
use tifs::layout::{BLOCK_SIZE, INLINE_DATA_THRESHOLD};
use tifs::names::Name;
use tifs::store::{bytes_eq, Entry, Key, Meta, Record, Txn};

const T0: Timestamp = Timestamp { secs: 10, nanos: 1 };
const T1: Timestamp = Timestamp { secs: 20, nanos: 2 };

fn inode(ino: u64, kind: FileKind) -> Inode {
    Inode {
        file_attr: FileAttr {
            ino,
            size: 0,
            blocks: 0,
            atime: T0,
            mtime: T0,
            ctime: T0,
            crtime: T0,
            kind,
            perm: 0o644,
            nlink: 1,
            uid: 1,
            gid: 2,
            rdev: 0,
            blksize: BLOCK_SIZE as u32,
            flags: 0,
        },
        lock_state: LockState::new(vec![], UNLOCKED),
        inline_data: None,
    }
}

/// A transaction that has been handed a file inode and knows that the
/// store holds none of the blocks listed.
fn with_file(ino: u64, blocks: u64) -> Txn {
    let mut txn = Txn::begin_optimistic();
    assert!(txn.supply(Key::Inode(ino), Some(Record::Inode(inode(ino, FileKind::RegularFile)))));
    for b in 0..blocks {
        assert!(txn.supply(Key::Block(ino, b), None));
    }
    txn
}

#[test]
fn names_carry_their_bytes() {
    let mut txn = Txn::begin_optimistic();
    txn.set_index(1, Name::new("h\u{e9}llo"), 7).unwrap();
    txn.remove_index(2, Name::new("")).unwrap();
    assert_eq!(txn.log[0].key, Key::Index(1, vec![b'h', 0xc3, 0xa9, b'l', b'l', b'o']));
    assert_eq!(txn.log[1].key, Key::Index(2, vec![]));
    assert_eq!(txn.get_index(1, Name::new("h\u{e9}llo")), Ok(Some(7)));
    assert_eq!(
        txn.get_index(1, Name::new("hello")),
        Err(FsError::NotLoaded { slot: Slot::Index(1) })
    );
    // the name reaches the listing with the same bytes
    txn.supply(Key::Inode(1), Some(Record::Inode(inode(1, FileKind::Directory))));
    txn.supply(Key::Dir(1), Some(Record::Bytes(vec![])));
    txn.supply(Key::Meta, None);
    txn.supply(Key::Index(1, b"n\xc3\xa9".to_vec()), None);
    let made = txn.make_inode(1, Name::new("n\u{e9}"), 0o100644, 0, 0, T1).unwrap();
    assert_eq!(
        txn.read_dir(1),
        Ok(vec![DirItem { ino: made.file_attr.ino, name: vec![b'n', 0xc3, 0xa9], typ: FileKind::RegularFile }])
    );
}

#[test]
fn keys_compare_and_name_their_slots() {
    let a = Key::Index(1, b"a".to_vec());
    assert!(a.same(&Key::Index(1, b"a".to_vec())));
    assert!(!a.same(&Key::Index(1, b"b".to_vec())));
    assert!(!a.same(&Key::Index(2, b"a".to_vec())));
    assert!(!Key::Inode(1).same(&Key::Dir(1)));
    assert!(Key::Meta.same(&Key::Meta));
    assert!(Key::Block(1, 2).same(&Key::Block(1, 2)));
    assert!(!Key::Block(1, 2).same(&Key::Block(2, 1)));
    assert_eq!(a.slot(), Slot::Index(1));
    assert_eq!(Key::Block(3, 4).slot(), Slot::Block(3, 4));
    assert_eq!(Key::of_slot(Slot::Index(5), &b"n".to_vec()), Key::Index(5, b"n".to_vec()));
    assert_eq!(Key::of_slot(Slot::Dir(5), &b"n".to_vec()), Key::Dir(5));
    assert_eq!(Key::of_slot(Slot::Meta, &vec![]), Key::Meta);
    assert!(bytes_eq(&vec![1, 2], &vec![1, 2]));
    assert!(!bytes_eq(&vec![1, 2], &vec![1, 3]));
    assert!(!bytes_eq(&vec![1, 2], &vec![1]));
}

#[test]
fn get_sees_the_latest_entry() {
    let mut txn = Txn::begin_optimistic();
    assert_eq!(txn.get(&Key::Meta), Err(FsError::NotLoaded { slot: Slot::Meta }));
    assert!(txn.supply(Key::Meta, None));
    assert_eq!(txn.get(&Key::Meta), Ok(None));
    txn.put(Key::Meta, Record::Meta(Meta { inode_next: 5 }));
    assert_eq!(txn.get(&Key::Meta), Ok(Some(&Record::Meta(Meta { inode_next: 5 }))));
    // a record handed over late does not replace what the transaction has
    assert!(!txn.supply(Key::Meta, Some(Record::Meta(Meta { inode_next: 1 }))));
    assert_eq!(txn.get(&Key::Meta), Ok(Some(&Record::Meta(Meta { inode_next: 5 }))));
    txn.delete(Key::Meta);
    assert_eq!(txn.get(&Key::Meta), Ok(None));
    assert_eq!(
        txn.log,
        vec![
            Entry { key: Key::Meta, value: None, staged: false },
            Entry { key: Key::Meta, value: Some(Record::Meta(Meta { inode_next: 5 })), staged: true },
            Entry { key: Key::Meta, value: None, staged: true },
        ]
    );
}

#[test]
fn meta_and_index_records() {
    let mut txn = Txn::begin_optimistic();
    assert_eq!(txn.read_meta(), Err(FsError::NotLoaded { slot: Slot::Meta }));
    txn.save_meta(&Meta { inode_next: 9 }).unwrap();
    assert_eq!(txn.read_meta(), Ok(Some(Meta { inode_next: 9 })));

    assert_eq!(
        txn.get_index(1, Name::new("a")),
        Err(FsError::NotLoaded { slot: Slot::Index(1) })
    );
    txn.set_index(1, Name::new("a"), 7).unwrap();
    assert_eq!(txn.get_index(1, Name::new("a")), Ok(Some(7)));
    assert_eq!(txn.lookup(1, Name::new("a")), Ok(7));
    txn.remove_index(1, Name::new("a")).unwrap();
    assert_eq!(txn.get_index(1, Name::new("a")), Ok(None));
    assert_eq!(txn.lookup(1, Name::new("a")), Err(FsError::NotFound));
}

#[test]
fn save_inode_without_links_removes_the_record() {
    let mut txn = Txn::begin_optimistic();
    let mut i = inode(5, FileKind::RegularFile);
    txn.save_inode(&i).unwrap();
    assert_eq!(txn.read_inode(5), Ok(i.clone()));
    i.file_attr.nlink = 0;
    txn.save_inode(&i).unwrap();
    assert_eq!(txn.read_inode(5), Err(FsError::InodeMissing { inode: 5 }));
    i.file_attr.nlink = 3;
    txn.save_inode(&i).unwrap();
    txn.remove_inode(5).unwrap();
    assert_eq!(txn.read_inode(5), Err(FsError::InodeMissing { inode: 5 }));
    assert_eq!(txn.read_inode(6), Err(FsError::NotLoaded { slot: Slot::Inode(6) }));
}

#[test]
fn records_of_the_wrong_shape_are_corrupt() {
    let mut txn = Txn::begin_optimistic();
    txn.supply(Key::Meta, Some(Record::Index(1)));
    assert_eq!(txn.read_meta(), Err(FsError::Corrupt));
    txn.supply(Key::Index(1, b"a".to_vec()), Some(Record::Meta(Meta { inode_next: 1 })));
    assert_eq!(txn.get_index(1, Name::new("a")), Err(FsError::Corrupt));
    assert_eq!(txn.lookup(1, Name::new("a")), Err(FsError::Corrupt));
    // an inode record under another number, and one without links
    txn.supply(Key::Inode(4), Some(Record::Inode(inode(5, FileKind::RegularFile))));
    assert_eq!(txn.read_inode(4), Err(FsError::Corrupt));
    let mut dead = inode(6, FileKind::RegularFile);
    dead.file_attr.nlink = 0;
    txn.supply(Key::Inode(6), Some(Record::Inode(dead)));
    assert_eq!(txn.read_inode(6), Err(FsError::Corrupt));
    txn.supply(Key::Inode(7), Some(Record::Bytes(vec![])));
    assert_eq!(txn.read_inode(7), Err(FsError::Corrupt));
    // a listing that does not decode, and one that is no byte record
    txn.supply(Key::Dir(4), Some(Record::Bytes(vec![1, 2, 3])));
    assert_eq!(txn.read_dir(4), Err(FsError::Corrupt));
    txn.supply(Key::Dir(5), Some(Record::Index(3)));
    assert_eq!(txn.read_dir(5), Err(FsError::Corrupt));
    // a block of the wrong length
    txn.supply(Key::Block(4, 0), Some(Record::Bytes(vec![0; 10])));
    assert_eq!(txn.read_block(4, 0), Err(FsError::Corrupt));
    txn.supply(Key::Block(4, 1), Some(Record::Index(3)));
    assert_eq!(txn.read_block(4, 1), Err(FsError::Corrupt));
}

#[test]
fn save_dir_sets_size_to_stored_length() {
    let mut txn = Txn::begin_optimistic();
    txn.supply(Key::Inode(3), Some(Record::Inode(inode(3, FileKind::Directory))));
    let dir = vec![
        DirItem { ino: 8, name: b"abc".to_vec(), typ: FileKind::RegularFile },
        DirItem { ino: 9, name: b"d".to_vec(), typ: FileKind::Directory },
    ];
    txn.save_dir(3, &dir, T1).unwrap();
    let i = txn.read_inode(3).unwrap();
    assert_eq!(i.file_attr.size, 17 + 3 + 17 + 1);
    assert_eq!(i.file_attr.size, encode(&dir).len() as u64);
    assert_eq!(i.file_attr.blocks, 1);
    assert_eq!((i.file_attr.atime, i.file_attr.mtime, i.file_attr.ctime), (T1, T1, T1));
    assert_eq!(i.file_attr.crtime, T0);
    assert_eq!(txn.read_dir(3), Ok(dir));
    // without the directory's inode nothing is written
    let before = txn.log.len();
    assert_eq!(
        txn.save_dir(4, &vec![], T1),
        Err(FsError::NotLoaded { slot: Slot::Inode(4) })
    );
    assert_eq!(txn.log.len(), before);
}

#[test]
fn unlink_stamps_change_time_and_keeps_other_links() {
    let mut txn = Txn::begin_optimistic();
    let mut file = inode(5, FileKind::RegularFile);
    file.file_attr.nlink = 2;
    txn.supply(Key::Inode(1), Some(Record::Inode(inode(1, FileKind::Directory))));
    txn.supply(Key::Inode(5), Some(Record::Inode(file)));
    txn.supply(Key::Index(1, b"f".to_vec()), Some(Record::Index(5)));
    let listing = vec![DirItem { ino: 5, name: b"f".to_vec(), typ: FileKind::RegularFile }];
    txn.supply(Key::Dir(1), Some(Record::Bytes(encode(&listing))));
    assert_eq!(txn.unlink(1, Name::new("f"), T1), Ok(()));
    let after = txn.read_inode(5).unwrap();
    assert_eq!(after.file_attr.nlink, 1);
    assert_eq!(after.file_attr.ctime, T1);
    assert_eq!(after.file_attr.mtime, T0);
    assert_eq!(txn.read_dir(1), Ok(vec![]));
    assert_eq!(txn.read_inode(1).unwrap().file_attr.size, 0);
}

#[test]
fn inline_helpers() {
    let mut txn = Txn::begin_optimistic();
    let mut i = inode(5, FileKind::RegularFile);
    assert_eq!(txn.write_inline_data(&mut i, 2, &vec![1, 2], T1), Ok(2));
    assert_eq!(i.inline_data, Some(vec![0, 0, 1, 2]));
    assert_eq!(i.file_attr.size, 4);
    assert_eq!(i.file_attr.blocks, 1);
    assert_eq!(i.file_attr.mtime, T1);
    assert_eq!(txn.read_inode(5), Ok(i.clone()));
    assert_eq!(txn.read_inline_data(&mut i, 1, 5, T0), Ok(vec![0, 1, 2, 0, 0]));
    assert_eq!(i.file_attr.atime, T0);
    assert_eq!(txn.read_inline_data(&mut i, 9, 2, T0), Ok(vec![0, 0]));
    txn.transfer_inline_data_to_block(&mut i).unwrap();
    assert_eq!(i.inline_data, None);
    let mut block = vec![0u8; BLOCK_SIZE as usize];
    block[2] = 1;
    block[3] = 2;
    assert_eq!(txn.read_block(5, 0), Ok(block));
}

#[test]
fn symlink_target_is_inline_whatever_its_length() {
    let mut txn = Txn::begin_optimistic();
    let mut link = inode(5, FileKind::Symlink);
    link.inline_data = Some(vec![1, 2, 3]);
    link.file_attr.size = 3;
    let target = vec![b'x'; INLINE_DATA_THRESHOLD as usize + 10];
    assert_eq!(txn.write_link(&mut link, Bytes::from(target.clone()), T1), Ok(target.len()));
    assert_eq!(link.file_attr.size, target.len() as u64);
    assert_eq!(link.inline_data, Some(target.clone()));
    assert_eq!(txn.read_link(5, T1), Ok(target));
    let mut short = inode(6, FileKind::Symlink);
    assert_eq!(txn.write_link(&mut short, Bytes::from_static(b"/a/b"), T1), Ok(4));
    assert_eq!(txn.read_link(6, T1), Ok(b"/a/b".to_vec()));
    assert_eq!(txn.read_link(7, T1), Err(FsError::NotLoaded { slot: Slot::Inode(7) }));
}

#[test]
fn fallocate_grows_and_never_shrinks() {
    let mut txn = with_file(5, 0);
    let mut i = txn.read_inode(5).unwrap();
    txn.write_inline_data(&mut i, 0, &vec![1, 2, 3], T0).unwrap();
    let writes = txn.log.len();
    // not larger than the file: nothing happens
    txn.fallocate(&mut i, 1, 2, T1).unwrap();
    assert_eq!(txn.log.len(), writes);
    assert_eq!(i.file_attr.size, 3);
    // larger but small: the inline content grows by zeros
    txn.fallocate(&mut i, 2, 4, T1).unwrap();
    assert_eq!(i.inline_data, Some(vec![1, 2, 3, 0, 0, 0]));
    assert_eq!(i.file_attr.size, 6);
    // past the threshold: the content moves to block 0, none other is made
    txn.fallocate(&mut i, BLOCK_SIZE as i64, BLOCK_SIZE as i64 + 1, T1).unwrap();
    assert_eq!(i.inline_data, None);
    assert_eq!(i.file_attr.size, 2 * BLOCK_SIZE + 1);
    assert_eq!(i.file_attr.blocks, 3);
    assert_eq!(i.file_attr.mtime, T1);
    assert_eq!(txn.read_inode(5), Ok(i.clone()));
    assert_eq!(txn.read_block(5, 0).unwrap()[..4], [1, 2, 3, 0]);
    assert_eq!(txn.read_block(5, 1), Err(FsError::NotLoaded { slot: Slot::Block(5, 1) }));
    // a file without inline content just gets the size
    let mut bare = inode(6, FileKind::RegularFile);
    txn.fallocate(&mut bare, 0, 10, T1).unwrap();
    assert_eq!(bare.file_attr.size, 10);
    assert_eq!(bare.inline_data, None);
}

#[test]
fn read_clamps_to_the_file() {
    let mut txn = with_file(5, 3);
    let data: Vec<u8> = (0..100u8).collect();
    assert_eq!(txn.write_data(5, BLOCK_SIZE - 30, Bytes::from(data.clone()), T1), Ok(100));
    let size = BLOCK_SIZE + 70;
    assert_eq!(txn.read_inode(5).unwrap().file_attr.size, size);
    assert_eq!(txn.read_data(5, size, Some(10), T1), Ok(vec![]));
    assert_eq!(txn.read_data(5, size + 1, None, T1), Ok(vec![]));
    assert_eq!(txn.read_data(5, size - 5, Some(100), T1), Ok(data[95..].to_vec()));
    assert_eq!(txn.read_data(5, size - 5, None, T1), Ok(data[95..].to_vec()));
    assert_eq!(txn.read_data(5, BLOCK_SIZE - 31, Some(3), T1), Ok(vec![0, 0, 1]));
    assert_eq!(txn.read_data(5, BLOCK_SIZE - 1, Some(0), T1), Ok(vec![]));
    assert_eq!(txn.read_inode(5).unwrap().file_attr.atime, T1);
    assert_eq!(txn.read_data(9, 0, None, T1), Err(FsError::NotLoaded { slot: Slot::Inode(9) }));
    let mut gone = Txn::begin_optimistic();
    gone.supply(Key::Inode(9), None);
    assert_eq!(gone.read_data(9, 0, None, T1), Err(FsError::InodeMissing { inode: 9 }));
    assert_eq!(gone.write_data(9, 0, Bytes::new(), T1), Err(FsError::InodeMissing { inode: 9 }));
    assert_eq!(gone.clear_data(9, T1), Err(FsError::InodeMissing { inode: 9 }));
}

#[test]
fn write_asks_for_the_blocks_it_patches() {
    let mut txn = with_file(5, 0);
    let data = vec![1u8; (2 * BLOCK_SIZE) as usize];
    let mut first = txn.clone();
    assert_eq!(
        first.write_data(5, 10, Bytes::from(data.clone()), T1),
        Err(FsError::NotLoaded { slot: Slot::Block(5, 0) })
    );
    txn.supply(Key::Block(5, 0), None);
    let mut second = txn.clone();
    assert_eq!(
        second.write_data(5, 10, Bytes::from(data.clone()), T1),
        Err(FsError::NotLoaded { slot: Slot::Block(5, 2) })
    );
    txn.supply(Key::Block(5, 2), None);
    assert_eq!(txn.write_data(5, 10, Bytes::from(data.clone()), T1), Ok(data.len()));
    // block 1 was written whole, without being read
    assert_eq!(txn.read_block(5, 1), Ok(vec![1u8; BLOCK_SIZE as usize]));
    let mut last = vec![0u8; BLOCK_SIZE as usize];
    last[..10].copy_from_slice(&[1; 10]);
    assert_eq!(txn.read_block(5, 2), Ok(last));
}

#[test]
fn empty_write_behind_the_end_grows_the_file() {
    let mut txn = with_file(5, 1);
    assert_eq!(txn.write_data(5, 5000, Bytes::new(), T1), Ok(0));
    assert_eq!(txn.read_inode(5).unwrap().file_attr.size, 5000);
    assert_eq!(txn.read_data(5, 4990, None, T1), Ok(vec![0; 10]));
    // a small empty write on an empty file stays inline
    let mut small = with_file(6, 0);
    assert_eq!(small.write_data(6, 7, Bytes::new(), T1), Ok(0));
    assert_eq!(small.read_inode(6).unwrap().inline_data, Some(vec![0; 7]));
}

#[test]
fn write_that_would_end_behind_the_last_offset_is_refused() {
    let mut txn = with_file(5, 1);
    let before = txn.log.len();
    assert_eq!(txn.try_write_data(5, u64::MAX, Bytes::from_static(b"x"), T1), None);
    assert_eq!(txn.try_write_data(5, u64::MAX - 2, Bytes::from_static(b"xyz!"), T1), None);
    assert_eq!(txn.log.len(), before);
    assert_eq!(txn.try_write_data(5, 1, Bytes::from_static(b"xyz"), T1), Some(Ok(3)));
    assert_eq!(txn.read_data(5, 0, None, T1), Ok(vec![0, b'x', b'y', b'z']));
    assert_eq!(
        txn.try_write_data(6, 0, Bytes::new(), T1),
        Some(Err(FsError::NotLoaded { slot: Slot::Inode(6) }))
    );
}
