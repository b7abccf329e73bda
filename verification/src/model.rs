//! What each operation does, as a function from the state a transaction
//! knows to the state it leaves and the result it returns.
use vstd::prelude::*;
use crate::dir::{decode_spec, encode_spec, without_name, DirItemView};
use crate::error::FsError;
use crate::inode::{FileAttr, FileKind, InodeView, LockStateView, Timestamp, UNLOCKED};
use crate::layout::{blocks_for, BLOCK_SIZE, INLINE_DATA_THRESHOLD, ROOT_INODE};
use crate::mode::{kind_of_mode, mode_of, perm_of_mode};
use crate::store::{state_get, KeyView, Meta, RecordView, State};

verus! {

/// Reading the metadata record.
pub open spec fn read_meta(s: State) -> Result<Option<Meta>, FsError> {
    match state_get(s, KeyView::Meta) {
        Err(e) => Err(e),
        Ok(None) => Ok(None),
        Ok(Some(RecordView::Meta(m))) => Ok(Some(m)),
        Ok(Some(_)) => Err(FsError::Corrupt),
    }
}

/// Writing the metadata record.
pub open spec fn save_meta(s: State, m: Meta) -> State {
    s.insert(KeyView::Meta, Some(RecordView::Meta(m)))
}

/// Reading the inode record of `ino`.
pub open spec fn read_inode(s: State, ino: u64) -> Result<InodeView, FsError> {
    match state_get(s, KeyView::Inode(ino)) {
        Err(e) => Err(e),
        Ok(None) => Err(FsError::InodeMissing { inode: ino }),
        Ok(Some(RecordView::Inode(i))) => if i.storable(ino) {
            Ok(i)
        } else {
            Err(FsError::Corrupt)
        },
        Ok(Some(_)) => Err(FsError::Corrupt),
    }
}

/// Persisting an inode record: one without links is removed.
pub open spec fn save_inode(s: State, i: InodeView) -> State {
    if i.file_attr.nlink == 0 {
        s.insert(KeyView::Inode(i.file_attr.ino), None)
    } else {
        s.insert(KeyView::Inode(i.file_attr.ino), Some(RecordView::Inode(i)))
    }
}

/// Removing the inode record of `ino`.
pub open spec fn remove_inode(s: State, ino: u64) -> State {
    s.insert(KeyView::Inode(ino), None)
}

/// Resolving `name` in `parent` through the index.
pub open spec fn get_index(s: State, parent: u64, name: Seq<u8>) -> Result<Option<u64>, FsError> {
    match state_get(s, KeyView::Index(parent, name)) {
        Err(e) => Err(e),
        Ok(None) => Ok(None),
        Ok(Some(RecordView::Index(i))) => Ok(Some(i)),
        Ok(Some(_)) => Err(FsError::Corrupt),
    }
}

/// Pointing the index entry of `name` in `parent` at `ino`.
pub open spec fn set_index(s: State, parent: u64, name: Seq<u8>, ino: u64) -> State {
    s.insert(KeyView::Index(parent, name), Some(RecordView::Index(ino)))
}

/// Removing the index entry of `name` in `parent`.
pub open spec fn remove_index(s: State, parent: u64, name: Seq<u8>) -> State {
    s.insert(KeyView::Index(parent, name), None)
}

/// Resolving a name that has to be there.
pub open spec fn lookup(s: State, parent: u64, name: Seq<u8>) -> Result<u64, FsError> {
    match get_index(s, parent, name) {
        Err(e) => Err(e),
        Ok(None) => Err(FsError::NotFound),
        Ok(Some(i)) => Ok(i),
    }
}

/// Reading the listing of directory `ino`.
pub open spec fn read_dir(s: State, ino: u64) -> Result<Seq<DirItemView>, FsError> {
    match state_get(s, KeyView::Dir(ino)) {
        Err(e) => Err(e),
        Ok(None) => Err(FsError::MissingBlock { inode: ino, block: 0 }),
        Ok(Some(RecordView::Bytes(b))) => match decode_spec(b) {
            Some(d) => Ok(d),
            None => Err(FsError::Corrupt),
        },
        Ok(Some(_)) => Err(FsError::Corrupt),
    }
}

/// The inode with its three access times set to `now`.
pub open spec fn touched(i: InodeView, now: Timestamp) -> InodeView {
    InodeView { file_attr: FileAttr { atime: now, mtime: now, ctime: now, ..i.file_attr }, ..i }
}

/// Writing the listing of directory `ino`: the directory's size becomes
/// the length of the stored listing.
pub open spec fn save_dir(s: State, ino: u64, dir: Seq<DirItemView>, now: Timestamp) -> (
    State,
    Result<(), FsError>,
) {
    let data = encode_spec(dir);
    match read_inode(s, ino) {
        Err(e) => (s, Err(e)),
        Ok(attr) => (
            save_inode(s, touched(attr.with_size(data.len() as u64), now)).insert(
                KeyView::Dir(ino),
                Some(RecordView::Bytes(data)),
            ),
            Ok(()),
        ),
    }
}

/// The inode number that the next allocation hands out.
pub open spec fn next_inode(meta: Option<Meta>) -> u64 {
    match meta {
        Some(m) => m.inode_next,
        None => ROOT_INODE,
    }
}

/// The inode counter, where the transaction knows it, can be advanced.
pub open spec fn counter_fits(s: State) -> bool {
    read_meta(s) matches Ok(Some(m)) ==> m.inode_next < u64::MAX
}

/// The inode record of `ino`, where the transaction can read one, can
/// take one more link.
pub open spec fn link_fits(s: State, ino: u64) -> bool {
    read_inode(s, ino) matches Ok(i) ==> i.file_attr.nlink < u32::MAX
}

/// The record of a newly made inode.
pub open spec fn fresh_inode(
    ino: u64,
    kind: FileKind,
    perm: u16,
    gid: u32,
    uid: u32,
    now: Timestamp,
) -> InodeView {
    InodeView {
        file_attr: FileAttr {
            ino: ino,
            size: 0,
            blocks: 0,
            atime: now,
            mtime: now,
            ctime: now,
            crtime: now,
            kind: kind,
            perm: perm,
            nlink: 1,
            uid: uid,
            gid: gid,
            rdev: 0,
            blksize: BLOCK_SIZE as u32,
            flags: 0,
        },
        lock_state: LockStateView { owner_set: Seq::empty(), lk_type: UNLOCKED },
        inline_data: None,
    }
}

/// Entering `name` for `ino` in `parent`: the index entry is written,
/// then the listing gets one more entry at its end.
pub open spec fn attach(
    s: State,
    parent: u64,
    name: Seq<u8>,
    ino: u64,
    kind: FileKind,
    now: Timestamp,
) -> (State, Result<(), FsError>) {
    let s1 = set_index(s, parent, name, ino);
    match read_dir(s1, parent) {
        Err(e) => (s1, Err(e)),
        Ok(d) => save_dir(s1, parent, d.push(DirItemView { ino: ino, name: name, typ: kind }), now),
    }
}

/// Rewriting the listing of `parent` without the entries called `name`.
pub open spec fn strike(s: State, parent: u64, name: Seq<u8>, now: Timestamp) -> (
    State,
    Result<(), FsError>,
) {
    match read_dir(s, parent) {
        Err(e) => (s, Err(e)),
        Ok(d) => save_dir(s, parent, without_name(d, name), now),
    }
}

/// Making a node called `name` in `parent`.
pub open spec fn make_inode(
    s: State,
    parent: u64,
    name: Seq<u8>,
    mode: u32,
    gid: u32,
    uid: u32,
    now: Timestamp,
) -> (State, Result<InodeView, FsError>) {
    match read_meta(s) {
        Err(e) => (s, Err(e)),
        Ok(meta) => {
            let ino = next_inode(meta);
            let s1 = save_meta(s, Meta { inode_next: (ino + 1) as u64 });
            let kind = kind_of_mode(mode)->0;
            let entered = if parent >= ROOT_INODE {
                match get_index(s1, parent, name) {
                    Err(e) => (s1, Err(e)),
                    Ok(Some(_)) => (s1, Err(FsError::AlreadyExists)),
                    Ok(None) => attach(s1, parent, name, ino, kind, now),
                }
            } else {
                (s1, Ok(()))
            };
            match entered.1 {
                Err(e) => (entered.0, Err(e)),
                Ok(_) => {
                    let inode = fresh_inode(ino, kind, perm_of_mode(mode), gid, uid, now);
                    (save_inode(entered.0, inode), Ok(inode))
                },
            }
        },
    }
}

/// The mode word under which a directory is made for a requested mode.
pub open spec fn dir_mode(mode: u32) -> u32 {
    mode_of(FileKind::Directory, perm_of_mode(mode))
}

/// Making a directory called `name` in `parent`, with an empty listing.
pub open spec fn mkdir(
    s: State,
    parent: u64,
    name: Seq<u8>,
    mode: u32,
    gid: u32,
    uid: u32,
    now: Timestamp,
) -> (State, Result<InodeView, FsError>) {
    let made = make_inode(s, parent, name, dir_mode(mode), gid, uid, now);
    match made.1 {
        Err(e) => (made.0, Err(e)),
        Ok(attr) => {
            let saved = save_dir(made.0, attr.file_attr.ino, Seq::empty(), now);
            match saved.1 {
                Err(e) => (saved.0, Err(e)),
                Ok(_) => (saved.0, Ok(attr)),
            }
        },
    }
}

/// The inode with one link fewer and its change time set.
pub open spec fn dropped(i: InodeView, now: Timestamp) -> InodeView {
    InodeView {
        file_attr: FileAttr { nlink: (i.file_attr.nlink - 1) as u32, ctime: now, ..i.file_attr },
        ..i
    }
}

/// Removing the entry `name` of `parent` and one link of its target.
pub open spec fn unlink(s: State, parent: u64, name: Seq<u8>, now: Timestamp) -> (
    State,
    Result<(), FsError>,
) {
    match get_index(s, parent, name) {
        Err(e) => (s, Err(e)),
        Ok(None) => (s, Err(FsError::NotFound)),
        Ok(Some(ino)) => {
            let struck = strike(remove_index(s, parent, name), parent, name, now);
            match struck.1 {
                Err(e) => (struck.0, Err(e)),
                Ok(_) => match read_inode(struck.0, ino) {
                    Err(e) => (struck.0, Err(e)),
                    Ok(i) => (save_inode(struck.0, dropped(i, now)), Ok(())),
                },
            }
        },
    }
}

/// Removing the empty directory `name` of `parent`.
pub open spec fn rmdir(s: State, parent: u64, name: Seq<u8>, now: Timestamp) -> (
    State,
    Result<(), FsError>,
) {
    match get_index(s, parent, name) {
        Err(e) => (s, Err(e)),
        Ok(None) => (s, Err(FsError::NotFound)),
        Ok(Some(ino)) => match read_dir(s, ino) {
            Err(e) => (s, Err(e)),
            Ok(target) => if target.len() != 0 {
                (s, Err(FsError::DirectoryNotEmpty))
            } else {
                strike(remove_inode(remove_index(s, parent, name), ino), parent, name, now)
            },
        },
    }
}

/// Removing whatever `name` resolves to in `parent`, by its kind.
pub open spec fn displace(s: State, parent: u64, name: Seq<u8>, old_ino: u64, now: Timestamp) -> (
    State,
    Result<(), FsError>,
) {
    match read_inode(s, old_ino) {
        Err(e) => (s, Err(e)),
        Ok(i) => if i.file_attr.kind == FileKind::Directory {
            rmdir(s, parent, name, now)
        } else {
            unlink(s, parent, name, now)
        },
    }
}

/// The inode with one link more.
pub open spec fn raised(i: InodeView) -> InodeView {
    InodeView { file_attr: FileAttr { nlink: (i.file_attr.nlink + 1) as u32, ..i.file_attr }, ..i }
}

/// Entering `ino` under `name` in `parent`, in place of what the name
/// resolved to before.
pub open spec fn link(s: State, ino: u64, parent: u64, name: Seq<u8>, now: Timestamp) -> (
    State,
    Result<InodeView, FsError>,
) {
    match get_index(s, parent, name) {
        Err(e) => (s, Err(e)),
        Ok(found) => {
            let cleared = match found {
                Some(old_ino) => displace(s, parent, name, old_ino, now),
                None => (s, Ok(())),
            };
            match cleared.1 {
                Err(e) => (cleared.0, Err(e)),
                Ok(_) => {
                    let s1 = set_index(cleared.0, parent, name, ino);
                    match read_inode(s1, ino) {
                        Err(e) => (s1, Err(e)),
                        Ok(inode) => match read_dir(s1, parent) {
                            Err(e) => (s1, Err(e)),
                            Ok(d) => {
                                let saved = save_dir(
                                    s1,
                                    parent,
                                    d.push(
                                        DirItemView {
                                            ino: ino,
                                            name: name,
                                            typ: inode.file_attr.kind,
                                        },
                                    ),
                                    now,
                                );
                                match saved.1 {
                                    Err(e) => (saved.0, Err(e)),
                                    Ok(_) => (save_inode(saved.0, raised(inode)), Ok(raised(inode))),
                                }
                            },
                        },
                    }
                },
            }
        },
    }
}

/// `n` zero bytes.
pub open spec fn zeros(n: int) -> Seq<u8> {
    Seq::new(n as nat, |i: int| 0u8)
}

/// `d` cut or filled with zeros to length `n`.
pub open spec fn resized(d: Seq<u8>, n: int) -> Seq<u8> {
    Seq::new(n as nat, |i: int| if i < d.len() { d[i] } else { 0u8 })
}

/// `base` with `data` written at `start`: it grows to hold the write,
/// and a gap between its old end and `start` is zero.
pub open spec fn overlay(base: Seq<u8>, start: int, data: Seq<u8>) -> Seq<u8> {
    let n = if start + data.len() > base.len() { start + data.len() } else { base.len() as int };
    Seq::new(
        n as nat,
        |i: int|
            if start <= i < start + data.len() {
                data[i - start]
            } else if i < base.len() {
                base[i]
            } else {
                0u8
            },
    )
}

/// `base` with the bytes from `at` on replaced by `chunk`, at the same length.
pub open spec fn patched(base: Seq<u8>, at: int, chunk: Seq<u8>) -> Seq<u8> {
    Seq::new(base.len(), |i: int| if at <= i < at + chunk.len() { chunk[i - at] } else { base[i] })
}

/// The `size` bytes of `d` from `start` on, zero where `d` has ended.
pub open spec fn window(d: Seq<u8>, start: int, size: int) -> Seq<u8> {
    Seq::new(size as nat, |i: int| if start + i < d.len() { d[start + i] } else { 0u8 })
}

/// Reading block `b` of `ino`: an absent block is a block of zeros.
pub open spec fn read_block(s: State, ino: u64, b: u64) -> Result<Seq<u8>, FsError> {
    match state_get(s, KeyView::Block(ino, b)) {
        Err(e) => Err(e),
        Ok(None) => Ok(zeros(BLOCK_SIZE as int)),
        Ok(Some(RecordView::Bytes(d))) => if d.len() == BLOCK_SIZE {
            Ok(d)
        } else {
            Err(FsError::Corrupt)
        },
        Ok(Some(_)) => Err(FsError::Corrupt),
    }
}

/// Writing block `b` of `ino`.
pub open spec fn put_block(s: State, ino: u64, b: u64, d: Seq<u8>) -> State {
    s.insert(KeyView::Block(ino, b), Some(RecordView::Bytes(d)))
}

/// The content byte of `ino` at position `pos`, as the blocks give it.
pub open spec fn byte_at(s: State, ino: u64, pos: int) -> u8 {
    match read_block(s, ino, (pos / (BLOCK_SIZE as int)) as u64) {
        Ok(d) => d[pos % (BLOCK_SIZE as int)],
        Err(_) => 0u8,
    }
}

/// The first failure among the reads of blocks `lo` up to `hi`.
pub open spec fn block_error(s: State, ino: u64, lo: u64, hi: u64) -> Option<FsError>
    decreases hi - lo,
{
    if lo >= hi {
        None
    } else {
        match read_block(s, ino, lo) {
            Err(e) => Some(e),
            Ok(_) => block_error(s, ino, (lo + 1) as u64, hi),
        }
    }
}

/// What a range scan that returned `pairs` says of block `b`: the bytes
/// of the first pair with that index, or that there is no such block.
pub open spec fn scanned(pairs: Seq<(u64, Vec<u8>)>, b: u64) -> Option<RecordView>
    decreases pairs.len(),
{
    if pairs.len() == 0 {
        None
    } else if pairs[0].0 == b {
        Some(RecordView::Bytes(pairs[0].1@))
    } else {
        scanned(pairs.drop_first(), b)
    }
}

/// The state after the result of a scan over blocks `lo` up to `hi` of
/// `ino` was handed over: a block in that range that the transaction
/// did not know is now known as the scan tells, present or a hole;
/// what it knew stays.
pub open spec fn with_scan(s: State, ino: u64, lo: u64, hi: u64, pairs: Seq<(u64, Vec<u8>)>) -> State {
    Map::new(
        |k: KeyView|
            s.dom().contains(k) || (k matches KeyView::Block(i, b) && i == ino && lo <= b < hi),
        |k: KeyView|
            if s.dom().contains(k) {
                s[k]
            } else {
                scanned(pairs, k->Block_1)
            },
    )
}

/// Moving inline content into block 0, filled with zeros to a full block.
pub open spec fn transfer(s: State, i: InodeView) -> (State, InodeView) {
    (
        put_block(s, i.file_attr.ino, 0, resized(i.inline_data->0, BLOCK_SIZE as int)),
        InodeView { inline_data: None, ..i },
    )
}

/// The inline content of an inode; none is empty content.
pub open spec fn inline_of(i: InodeView) -> Seq<u8> {
    match i.inline_data {
        Some(d) => d,
        None => Seq::empty(),
    }
}

/// Writing `data` at `start` into the inline content.
pub open spec fn write_inline(s: State, i: InodeView, start: u64, data: Seq<u8>, now: Timestamp) -> (
    State,
    InodeView,
) {
    let content = overlay(inline_of(i), start as int, data);
    let after = InodeView {
        inline_data: Some(content),
        ..touched(i, now).with_size(content.len() as u64)
    };
    (save_inode(s, after), after)
}

/// The inode with its access time set.
pub open spec fn accessed(i: InodeView, now: Timestamp) -> InodeView {
    InodeView { file_attr: FileAttr { atime: now, ..i.file_attr }, ..i }
}

/// Reading `size` bytes at `start` from the inline content.
pub open spec fn read_inline(s: State, i: InodeView, start: u64, size: u64, now: Timestamp) -> (
    State,
    InodeView,
    Seq<u8>,
) {
    (
        save_inode(s, accessed(i, now)),
        accessed(i, now),
        window(inline_of(i), start as int, size as int),
    )
}

/// How many bytes a read at `start` returns from a file of `size` bytes.
pub open spec fn clamp_len(size: u64, start: u64, chunk_size: Option<u64>) -> u64 {
    if start >= size {
        0
    } else {
        let most = (size - start) as u64;
        match chunk_size {
            Some(c) => if c < most { c } else { most },
            None => most,
        }
    }
}

/// How many bytes `read_data` returns, or zero where it fails.
pub open spec fn read_len(s: State, ino: u64, start: u64, chunk_size: Option<u64>) -> u64 {
    match read_inode(s, ino) {
        Ok(i) => clamp_len(i.file_attr.size, start, chunk_size),
        Err(_) => 0,
    }
}

/// Reading up to `chunk_size` bytes of `ino` at `start`.
pub open spec fn read_data(s: State, ino: u64, start: u64, chunk_size: Option<u64>, now: Timestamp) -> (
    State,
    Result<Seq<u8>, FsError>,
) {
    match read_inode(s, ino) {
        Err(e) => (s, Err(e)),
        Ok(attr) => if start >= attr.file_attr.size {
            (s, Ok(Seq::empty()))
        } else {
            let size = clamp_len(attr.file_attr.size, start, chunk_size);
            if attr.inline_data is Some {
                let got = read_inline(s, attr, start, size, now);
                (got.0, Ok(got.2))
            } else {
                let target = (start + size) as u64;
                match block_error(
                    s,
                    ino,
                    start / BLOCK_SIZE,
                    blocks_for(target) as u64,
                ) {
                    Some(e) => (s, Err(e)),
                    None => (
                        save_inode(s, accessed(attr, now)),
                        Ok(Seq::new(size as nat, |i: int| byte_at(s, ino, start + i))),
                    ),
                }
            }
        },
    }
}

/// The state with blocks `0` up to `end` of `ino` removed.
pub open spec fn cleared(s: State, ino: u64, end: u64) -> State {
    Map::new(
        |k: KeyView| s.dom().contains(k) || (k matches KeyView::Block(i, b) && i == ino && b < end),
        |k: KeyView|
            if k matches KeyView::Block(i, b) && i == ino && b < end {
                None
            } else {
                s[k]
            },
    )
}

/// Removing every block of `ino` and setting its size to zero.
pub open spec fn clear_data(s: State, ino: u64, now: Timestamp) -> (State, Result<u64, FsError>) {
    match read_inode(s, ino) {
        Err(e) => (s, Err(e)),
        Ok(attr) => (
            save_inode(
                cleared(s, ino, blocks_for(attr.file_attr.size) as u64),
                InodeView { file_attr: FileAttr { size: 0, atime: now, ..attr.file_attr }, ..attr },
            ),
            Ok(attr.file_attr.size),
        ),
    }
}

/// Writing `rest` into the blocks behind block `b`, a block at a time;
/// a last block that `rest` does not fill keeps its other bytes.
pub open spec fn write_rest(s: State, ino: u64, b: u64, rest: Seq<u8>) -> (
    State,
    Result<(), FsError>,
)
    decreases rest.len(),
{
    if rest.len() == 0 {
        (s, Ok(()))
    } else {
        let nb = (b + 1) as u64;
        if rest.len() < BLOCK_SIZE {
            match read_block(s, ino, nb) {
                Err(e) => (s, Err(e)),
                Ok(d) => (put_block(s, ino, nb, patched(d, 0, rest)), Ok(())),
            }
        } else {
            write_rest(
                put_block(s, ino, nb, rest.take(BLOCK_SIZE as int)),
                ino,
                nb,
                rest.skip(BLOCK_SIZE as int),
            )
        }
    }
}

/// How many bytes of a write at `start` fall into its first block.
pub open spec fn first_len(start: u64, len: int) -> int {
    let room = BLOCK_SIZE - start % BLOCK_SIZE;
    if room < len {
        room
    } else {
        len
    }
}

/// Writing `data` at `start` into the blocks of `ino`.
pub open spec fn write_blocks(s: State, ino: u64, start: u64, data: Seq<u8>) -> (
    State,
    Result<(), FsError>,
) {
    let b0 = start / BLOCK_SIZE;
    let n0 = first_len(start, data.len() as int);
    match read_block(s, ino, b0) {
        Err(e) => (s, Err(e)),
        Ok(d) => write_rest(
            put_block(s, ino, b0, patched(d, (start % BLOCK_SIZE) as int, data.take(n0))),
            ino,
            b0,
            data.skip(n0),
        ),
    }
}

/// The larger of two sizes.
pub open spec fn larger(a: u64, b: u64) -> u64 {
    if a < b {
        b
    } else {
        a
    }
}

/// Writing `data` at `start` into `ino`.
pub open spec fn write_data(s: State, ino: u64, start: u64, data: Seq<u8>, now: Timestamp) -> (
    State,
    Result<usize, FsError>,
) {
    match read_inode(s, ino) {
        Err(e) => (s, Err(e)),
        Ok(inode) => {
            let target = start + data.len();
            let promoted = if inode.inline_data is Some && target > INLINE_DATA_THRESHOLD {
                transfer(s, inode)
            } else {
                (s, inode)
            };
            if (promoted.1.inline_data is Some || promoted.1.file_attr.size == 0) && target
                <= INLINE_DATA_THRESHOLD {
                (write_inline(promoted.0, promoted.1, start, data, now).0, Ok(data.len() as usize))
            } else {
                let written = write_blocks(promoted.0, ino, start, data);
                match written.1 {
                    Err(e) => (written.0, Err(e)),
                    Ok(_) => (
                        save_inode(
                            written.0,
                            touched(promoted.1, now).with_size(
                                larger(promoted.1.file_attr.size, target as u64),
                            ),
                        ),
                        Ok(data.len() as usize),
                    ),
                }
            }
        },
    }
}

/// Storing a symlink's target as the whole inline content.
pub open spec fn write_link(s: State, i: InodeView, data: Seq<u8>, now: Timestamp) -> (
    State,
    InodeView,
) {
    write_inline(s, InodeView { inline_data: None, ..i }.with_size(0), 0, data, now)
}

/// Reading a symlink's target.
pub open spec fn read_link(s: State, ino: u64, now: Timestamp) -> (State, Result<Seq<u8>, FsError>) {
    match read_inode(s, ino) {
        Err(e) => (s, Err(e)),
        Ok(i) => {
            let got = read_inline(s, i, 0, i.file_attr.size, now);
            (got.0, Ok(got.2))
        },
    }
}

/// The size that an allocation of `length` bytes at `offset` asks for.
pub open spec fn alloc_target(offset: i64, length: i64) -> u64 {
    let sum = offset + length;
    if sum >= 0 {
        sum as u64
    } else {
        (sum + 0x1_0000_0000_0000_0000) as u64
    }
}

/// The inode with its modification time set.
pub open spec fn modified(i: InodeView, now: Timestamp) -> InodeView {
    InodeView { file_attr: FileAttr { mtime: now, ..i.file_attr }, ..i }
}

/// Growing a file to hold `length` bytes at `offset`.
pub open spec fn fallocate(s: State, i: InodeView, offset: i64, length: i64, now: Timestamp) -> (
    State,
    InodeView,
) {
    let target = alloc_target(offset, length);
    if target <= i.file_attr.size {
        (s, i)
    } else if i.inline_data is Some && target <= INLINE_DATA_THRESHOLD {
        write_inline(s, i, i.file_attr.size, zeros(target - i.file_attr.size), now)
    } else {
        let promoted = if i.inline_data is Some {
            transfer(s, i)
        } else {
            (s, i)
        };
        let after = modified(promoted.1.with_size(target), now);
        (save_inode(promoted.0, after), after)
    }
}

} // verus!
