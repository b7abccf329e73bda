use bytes::Bytes;
use tifs::error::{FsError, Slot};
use tifs::inode::{FileKind, Inode, Timestamp};
use tifs::layout::{BLOCK_SIZE, INLINE_DATA_THRESHOLD, ROOT_INODE};
use tifs::mode::{S_IFDIR, S_IFREG};
use tifs::names::Name;
use tifs::store::{Key, Txn};

const NOW: Timestamp = Timestamp { secs: 1_700_000_000, nanos: 7 };
const LATER: Timestamp = Timestamp { secs: 1_700_000_100, nanos: 9 };

/// Runs one operation against an empty backing store: whatever the
/// transaction asks for is absent there.
fn run<T>(txn: &mut Txn, name: &str, op: impl Fn(&mut Txn) -> Result<T, FsError>) -> Result<T, FsError> {
    loop {
        let mut attempt = txn.clone();
        match op(&mut attempt) {
            Err(FsError::NotLoaded { slot }) => {
                let key = Key::of_slot(slot, &name.as_bytes().to_vec());
                assert!(txn.supply(key, None));
            }
            other => {
                *txn = attempt;
                return other;
            }
        }
    }
}

fn fresh_root() -> Txn {
    let mut txn = Txn::begin_optimistic();
    let root = run(&mut txn, "", |t| t.mkdir(0, Name::new(""), 0o755, 0, 0, NOW)).unwrap();
    assert_eq!(root.file_attr.ino, ROOT_INODE);
    assert_eq!(root.file_attr.kind, FileKind::Directory);
    txn
}

fn create(txn: &mut Txn, parent: u64, name: &str) -> Result<Inode, FsError> {
    run(txn, name, |t| t.make_inode(parent, Name::new(name), S_IFREG | 0o644, 10, 20, NOW))
}

#[test]
fn make_inode_numbers_increase() {
    let mut txn = fresh_root();
    let a = create(&mut txn, ROOT_INODE, "a").unwrap();
    let b = create(&mut txn, ROOT_INODE, "b").unwrap();
    let c = create(&mut txn, ROOT_INODE, "c").unwrap();
    assert_eq!(a.file_attr.ino, 2);
    assert_eq!(b.file_attr.ino, 3);
    assert_eq!(c.file_attr.ino, 4);
    assert_eq!(a.file_attr.nlink, 1);
    assert_eq!(a.file_attr.size, 0);
    assert_eq!(a.file_attr.gid, 10);
    assert_eq!(a.file_attr.uid, 20);
    assert_eq!(a.file_attr.perm, 0o100644);
    assert_eq!(a.file_attr.blksize as u64, BLOCK_SIZE);
    assert_eq!(a.file_attr.crtime, NOW);
    assert_eq!(a.inline_data, None);
}

#[test]
fn make_inode_existing_name_fails_and_uses_a_number() {
    let mut txn = fresh_root();
    create(&mut txn, ROOT_INODE, "a").unwrap();
    assert_eq!(create(&mut txn, ROOT_INODE, "a"), Err(FsError::AlreadyExists));
    let b = create(&mut txn, ROOT_INODE, "b").unwrap();
    assert_eq!(b.file_attr.ino, 4);
}

#[test]
fn lookup_finds_and_misses() {
    let mut txn = fresh_root();
    let a = create(&mut txn, ROOT_INODE, "a").unwrap();
    assert_eq!(run(&mut txn, "a", |t| t.lookup(ROOT_INODE, Name::new("a"))), Ok(a.file_attr.ino));
    assert_eq!(run(&mut txn, "zz", |t| t.lookup(ROOT_INODE, Name::new("zz"))), Err(FsError::NotFound));
}

#[test]
fn listing_and_index_agree() {
    let mut txn = fresh_root();
    create(&mut txn, ROOT_INODE, "a").unwrap();
    create(&mut txn, ROOT_INODE, "b").unwrap();
    run(&mut txn, "a", |t| t.unlink(ROOT_INODE, Name::new("a"), LATER)).unwrap();
    let dir = txn.read_dir(ROOT_INODE).unwrap();
    let names: Vec<Vec<u8>> = dir.iter().map(|e| e.name.clone()).collect();
    assert_eq!(names, vec![b"b".to_vec()]);
    assert_eq!(txn.get_index(ROOT_INODE, Name::new("a")), Ok(None));
    assert_eq!(txn.get_index(ROOT_INODE, Name::new("b")), Ok(Some(3)));
}

#[test]
fn unlink_last_link_removes_inode() {
    let mut txn = fresh_root();
    let a = create(&mut txn, ROOT_INODE, "a").unwrap();
    run(&mut txn, "a", |t| t.unlink(ROOT_INODE, Name::new("a"), LATER)).unwrap();
    assert_eq!(
        txn.read_inode(a.file_attr.ino),
        Err(FsError::InodeMissing { inode: a.file_attr.ino })
    );
    assert_eq!(
        run(&mut txn, "a", |t| t.unlink(ROOT_INODE, Name::new("a"), LATER)),
        Err(FsError::NotFound)
    );
}

#[test]
fn rmdir_guard() {
    let mut txn = fresh_root();
    let d = run(&mut txn, "d", |t| t.mkdir(ROOT_INODE, Name::new("d"), S_IFDIR | 0o755, 0, 0, NOW)).unwrap();
    let dino = d.file_attr.ino;
    create(&mut txn, dino, "f").unwrap();
    assert_eq!(
        run(&mut txn, "d", |t| t.rmdir(ROOT_INODE, Name::new("d"), LATER)),
        Err(FsError::DirectoryNotEmpty)
    );
    run(&mut txn, "f", |t| t.unlink(dino, Name::new("f"), LATER)).unwrap();
    assert_eq!(run(&mut txn, "d", |t| t.rmdir(ROOT_INODE, Name::new("d"), LATER)), Ok(()));
    let dir = txn.read_dir(ROOT_INODE).unwrap();
    assert!(dir.iter().all(|e| e.name != b"d".to_vec()));
    assert_eq!(txn.read_inode(dino), Err(FsError::InodeMissing { inode: dino }));
    assert_eq!(
        run(&mut txn, "d", |t| t.rmdir(ROOT_INODE, Name::new("d"), LATER)),
        Err(FsError::NotFound)
    );
}

#[test]
fn link_redirects_existing_name() {
    let mut txn = fresh_root();
    let a = create(&mut txn, ROOT_INODE, "a").unwrap();
    let b = create(&mut txn, ROOT_INODE, "b").unwrap();
    let (aino, bino) = (a.file_attr.ino, b.file_attr.ino);
    // a second name for b, so that it outlives the redirection
    let b2 = run(&mut txn, "b2", |t| t.link(bino, ROOT_INODE, Name::new("b2"), LATER)).unwrap();
    assert_eq!(b2.file_attr.nlink, 2);
    let linked = run(&mut txn, "b", |t| t.link(aino, ROOT_INODE, Name::new("b"), LATER)).unwrap();
    assert_eq!(linked.file_attr.ino, aino);
    assert_eq!(linked.file_attr.nlink, 2);
    assert_eq!(txn.read_inode(bino).unwrap().file_attr.nlink, 1);
    assert_eq!(txn.get_index(ROOT_INODE, Name::new("b")), Ok(Some(aino)));
    let dir = txn.read_dir(ROOT_INODE).unwrap();
    let under_b: Vec<u64> = dir.iter().filter(|e| e.name == b"b".to_vec()).map(|e| e.ino).collect();
    assert_eq!(under_b, vec![aino]);
}

#[test]
fn missing_listing_is_missing_block() {
    let mut txn = Txn::begin_optimistic();
    assert!(txn.supply(Key::Dir(9), None));
    assert_eq!(txn.read_dir(9), Err(FsError::MissingBlock { inode: 9, block: 0 }));
    assert_eq!(txn.read_dir(8), Err(FsError::NotLoaded { slot: Slot::Dir(8) }));
}

#[test]
fn small_write_stays_inline_and_reads_back() {
    let mut txn = fresh_root();
    let a = create(&mut txn, ROOT_INODE, "a").unwrap();
    let ino = a.file_attr.ino;
    let n = run(&mut txn, "", |t| t.write_data(ino, 3, Bytes::from(vec![1u8, 2, 3]), LATER)).unwrap();
    assert_eq!(n, 3);
    let inode = txn.read_inode(ino).unwrap();
    assert_eq!(inode.file_attr.size, 6);
    assert_eq!(inode.inline_data, Some(vec![0, 0, 0, 1, 2, 3]));
    assert_eq!(run(&mut txn, "", |t| t.read_data(ino, 0, None, LATER)), Ok(vec![0, 0, 0, 1, 2, 3]));
    assert_eq!(run(&mut txn, "", |t| t.read_data(ino, 4, Some(1), LATER)), Ok(vec![2]));
    assert_eq!(run(&mut txn, "", |t| t.read_data(ino, 6, None, LATER)), Ok(vec![]));
}

#[test]
fn growing_past_threshold_promotes() {
    let mut txn = fresh_root();
    let a = create(&mut txn, ROOT_INODE, "a").unwrap();
    let ino = a.file_attr.ino;
    run(&mut txn, "", |t| t.write_data(ino, 0, Bytes::from(vec![7u8; 10]), LATER)).unwrap();
    let tail = vec![9u8; 5];
    let at = INLINE_DATA_THRESHOLD - 2;
    run(&mut txn, "", |t| t.write_data(ino, at, Bytes::from(tail.clone()), LATER)).unwrap();
    let inode = txn.read_inode(ino).unwrap();
    assert_eq!(inode.inline_data, None);
    assert_eq!(inode.file_attr.size, at + 5);
    assert_eq!(inode.file_attr.blocks, 1);
    let all = run(&mut txn, "", |t| t.read_data(ino, 0, None, LATER)).unwrap();
    let mut expect = vec![7u8; 10];
    expect.resize(at as usize, 0);
    expect.extend_from_slice(&tail);
    assert_eq!(all, expect);
}

#[test]
fn sparse_read() {
    let mut txn = fresh_root();
    let a = create(&mut txn, ROOT_INODE, "a").unwrap();
    let ino = a.file_attr.ino;
    let data: Vec<u8> = (1..=10).collect();
    let n = run(&mut txn, "", |t| t.write_data(ino, 3 * BLOCK_SIZE, Bytes::from(data.clone()), LATER)).unwrap();
    assert_eq!(n, 10);
    let got = run(&mut txn, "", |t| t.read_data(ino, 0, Some(3 * BLOCK_SIZE + 10), LATER)).unwrap();
    assert_eq!(got.len() as u64, 3 * BLOCK_SIZE + 10);
    assert!(got[..(3 * BLOCK_SIZE) as usize].iter().all(|b| *b == 0));
    assert_eq!(&got[(3 * BLOCK_SIZE) as usize..], &data[..]);
}

#[test]
fn write_across_blocks_round_trips_and_clears() {
    let mut txn = fresh_root();
    let a = create(&mut txn, ROOT_INODE, "a").unwrap();
    let ino = a.file_attr.ino;
    let len = (2 * BLOCK_SIZE + 100) as usize;
    let data: Vec<u8> = (0..len).map(|i| (i % 251) as u8).collect();
    let at = BLOCK_SIZE - 50;
    run(&mut txn, "", |t| t.write_data(ino, at, Bytes::from(data.clone()), LATER)).unwrap();
    assert_eq!(txn.read_inode(ino).unwrap().file_attr.size, at + len as u64);
    assert_eq!(txn.read_inode(ino).unwrap().file_attr.blocks, 4);
    let got = run(&mut txn, "", |t| t.read_data(ino, at, Some(len as u64), LATER)).unwrap();
    assert_eq!(got, data);
    let part = run(&mut txn, "", |t| t.read_data(ino, at + 70_000, Some(1000), LATER)).unwrap();
    assert_eq!(part, data[70_000..71_000].to_vec());
    // overwrite in the middle keeps the bytes around it
    run(&mut txn, "", |t| t.write_data(ino, at + 10, Bytes::from(vec![255u8; 4]), LATER)).unwrap();
    let head = run(&mut txn, "", |t| t.read_data(ino, at, Some(20), LATER)).unwrap();
    let mut expect = data[..20].to_vec();
    expect[10..14].copy_from_slice(&[255; 4]);
    assert_eq!(head, expect);

    assert_eq!(run(&mut txn, "", |t| t.clear_data(ino, LATER)), Ok(at + len as u64));
    assert_eq!(txn.read_inode(ino).unwrap().file_attr.size, 0);
    assert_eq!(run(&mut txn, "", |t| t.read_data(ino, 0, Some(100), LATER)), Ok(vec![]));
    assert_eq!(txn.read_block(ino, 1), Ok(vec![0u8; BLOCK_SIZE as usize]));
}
