use bytes::Bytes;
use tifs::error::{FsError, Slot};
use tifs::inode::{FileAttr, FileKind, Inode, LockState, Timestamp, UNLOCKED};
use tifs::keys::{be_bytes, be_value, decode_key, encode_key};
use tifs::layout::BLOCK_SIZE;
use tifs::store::{Key, Record, Txn};

const T0: Timestamp = Timestamp { secs: 1, nanos: 0 };

fn file(ino: u64, size: u64) -> Inode {
    Inode {
        file_attr: FileAttr {
            ino,
            size,
            blocks: 0,
            atime: T0,
            mtime: T0,
            ctime: T0,
            crtime: T0,
            kind: FileKind::RegularFile,
            perm: 0o644,
            nlink: 1,
            uid: 0,
            gid: 0,
            rdev: 0,
            blksize: BLOCK_SIZE as u32,
            flags: 0,
        },
        lock_state: LockState::new(vec![], UNLOCKED),
        inline_data: None,
    }
}

#[test]
fn numbers_are_stored_most_significant_byte_first() {
    assert_eq!(be_bytes(0), vec![0; 8]);
    assert_eq!(be_bytes(0x0102030405060708), vec![1, 2, 3, 4, 5, 6, 7, 8]);
    assert_eq!(be_bytes(u64::MAX), vec![255; 8]);
    assert_eq!(be_value(&vec![9, 1, 2, 3, 4, 5, 6, 7, 8], 1), 0x0102030405060708);
    assert_eq!(be_value(&vec![0, 0, 0, 0, 0, 0, 1, 0], 0), 256);
}

#[test]
fn keys_have_their_stored_form() {
    assert_eq!(encode_key(&Key::Meta), vec![0]);
    assert_eq!(encode_key(&Key::Inode(258)), vec![1, 0, 0, 0, 0, 0, 0, 1, 2]);
    assert_eq!(
        encode_key(&Key::Block(1, 2)),
        vec![2, 0, 0, 0, 0, 0, 0, 0, 1, 0, 0, 0, 0, 0, 0, 0, 2]
    );
    assert_eq!(encode_key(&Key::Dir(3)), vec![3, 0, 0, 0, 0, 0, 0, 0, 3]);
    assert_eq!(
        encode_key(&Key::Index(4, b"ab".to_vec())),
        vec![4, 0, 0, 0, 0, 0, 0, 0, 4, b'a', b'b']
    );
}

#[test]
fn keys_read_back() {
    let keys = vec![
        Key::Meta,
        Key::Inode(0),
        Key::Inode(u64::MAX),
        Key::Block(7, 0),
        Key::Block(u64::MAX, 1 << 40),
        Key::Dir(12),
        Key::Index(1, vec![]),
        Key::Index(9, b"name".to_vec()),
        Key::Index(9, vec![0, 255, 4]),
    ];
    for key in &keys {
        assert_eq!(decode_key(&encode_key(key)), Some(key.clone()));
    }
    for (i, a) in keys.iter().enumerate() {
        for (j, b) in keys.iter().enumerate() {
            assert_eq!(encode_key(a) == encode_key(b), i == j);
        }
    }
}

#[test]
fn bytes_that_are_no_key() {
    assert_eq!(decode_key(&vec![]), None);
    assert_eq!(decode_key(&vec![0, 0]), None);
    assert_eq!(decode_key(&vec![1, 0, 0]), None);
    assert_eq!(decode_key(&vec![1; 10]), None);
    assert_eq!(decode_key(&vec![2; 9]), None);
    assert_eq!(decode_key(&vec![3; 17]), None);
    assert_eq!(decode_key(&vec![4; 8]), None);
    assert_eq!(decode_key(&vec![5; 9]), None);
}

#[test]
fn blocks_sort_by_index_within_their_inode() {
    let indices = [0u64, 1, 2, 255, 256, 257, 65535, 65536, 1 << 32, u64::MAX - 1, u64::MAX];
    for w in indices.windows(2) {
        assert!(encode_key(&Key::Block(5, w[0])) < encode_key(&Key::Block(5, w[1])));
    }
    // the blocks of one inode lie together
    assert!(encode_key(&Key::Block(5, u64::MAX)) < encode_key(&Key::Block(6, 0)));
    assert!(encode_key(&Key::Block(4, u64::MAX)) < encode_key(&Key::Block(5, 0)));
}

#[test]
fn scan_results_fill_the_range_with_blocks_and_holes() {
    let mut txn = Txn::begin_optimistic();
    txn.supply(Key::Inode(5), Some(Record::Inode(file(5, 4 * BLOCK_SIZE))));
    // block 1 was written by this transaction before the scan came back
    txn.put(Key::Block(5, 1), Record::Bytes(vec![1; BLOCK_SIZE as usize]));
    let pairs = vec![
        (1u64, vec![9u8; BLOCK_SIZE as usize]),
        (2u64, vec![2u8; BLOCK_SIZE as usize]),
        (7u64, vec![7u8; BLOCK_SIZE as usize]),
    ];
    txn.supply_blocks(5, 0, 4, &pairs);
    assert_eq!(txn.read_block(5, 0), Ok(vec![0; BLOCK_SIZE as usize]));
    assert_eq!(txn.read_block(5, 1), Ok(vec![1; BLOCK_SIZE as usize]));
    assert_eq!(txn.read_block(5, 2), Ok(vec![2; BLOCK_SIZE as usize]));
    assert_eq!(txn.read_block(5, 3), Ok(vec![0; BLOCK_SIZE as usize]));
    assert_eq!(txn.read_block(5, 4), Err(FsError::NotLoaded { slot: Slot::Block(5, 4) }));
    assert_eq!(txn.read_block(5, 7), Err(FsError::NotLoaded { slot: Slot::Block(5, 7) }));
    assert_eq!(txn.read_block(6, 0), Err(FsError::NotLoaded { slot: Slot::Block(6, 0) }));
    // an empty range hands nothing over
    let before = txn.log.len();
    txn.supply_blocks(5, 9, 9, &pairs);
    txn.supply_blocks(5, 9, 3, &pairs);
    assert_eq!(txn.log.len(), before);

    let all = txn.read_data(5, BLOCK_SIZE - 1, Some(2 * BLOCK_SIZE + 2), T0).unwrap();
    let mut expect = vec![0u8];
    expect.extend_from_slice(&vec![1; BLOCK_SIZE as usize]);
    expect.extend_from_slice(&vec![2; BLOCK_SIZE as usize]);
    expect.push(0);
    assert_eq!(all, expect);
}

#[test]
fn holes_between_blocks_read_as_zeros() {
    let mut txn = Txn::begin_optimistic();
    txn.supply(Key::Inode(5), Some(Record::Inode(file(5, 0))));
    txn.supply_blocks(5, 0, 8, &vec![]);
    let a = vec![3u8; BLOCK_SIZE as usize];
    assert_eq!(txn.write_data(5, 2 * BLOCK_SIZE, Bytes::from(a.clone()), T0), Ok(a.len()));
    assert_eq!(txn.write_data(5, 5 * BLOCK_SIZE, Bytes::from(a.clone()), T0), Ok(a.len()));
    assert_eq!(txn.write_data(5, 6 * BLOCK_SIZE, Bytes::from(vec![4u8; 3]), T0), Ok(3));
    let got = txn.read_data(5, 0, None, T0).unwrap();
    assert_eq!(got.len() as u64, 6 * BLOCK_SIZE + 3);
    let bs = BLOCK_SIZE as usize;
    assert!(got[..2 * bs].iter().all(|b| *b == 0));
    assert!(got[2 * bs..3 * bs].iter().all(|b| *b == 3));
    assert!(got[3 * bs..5 * bs].iter().all(|b| *b == 0));
    assert!(got[5 * bs..6 * bs].iter().all(|b| *b == 3));
    assert_eq!(&got[6 * bs..], &[4, 4, 4]);
}
