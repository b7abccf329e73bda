//! File content: inline data inside the inode record, and blocks.
use vstd::prelude::*;
use bytes::Bytes;
use crate::buffers::{
    empty_block, overlay_bytes, patch_bytes, resize_bytes, slice_bytes, window_bytes, zero_bytes,
};
use crate::error::FsError;
use crate::inode::{copy_bytes, Inode, Timestamp};
use crate::layout::{block_count, blocks_for, BLOCK_SIZE, INLINE_DATA_THRESHOLD};
use crate::model;
use crate::names::{content_bytes, content_len, content_vec};
use crate::store::{view_opt, Key, Record, Txn};

verus! {

/// The bytes that a scan result holds for block `b`, if it holds any.
pub fn find_block(pairs: &Vec<(u64, Vec<u8>)>, b: u64) -> (r: Option<Record>)
    ensures
        view_opt(r) == model::scanned(pairs@, b),
{
    let mut i: usize = 0;
    assert(pairs@.skip(0) =~= pairs@);
    while i < pairs.len()
        invariant
            i <= pairs.len(),
            model::scanned(pairs@, b) == model::scanned(pairs@.skip(i as int), b),
        decreases pairs.len() - i,
    {
        proof {
            assert(pairs@.skip(i as int).drop_first() =~= pairs@.skip(i + 1));
            assert(pairs@.skip(i as int)[0] == pairs@[i as int]);
        }
        if pairs[i].0 == b {
            return Some(Record::Bytes(copy_bytes(&pairs[i].1)));
        }
        i += 1;
    }
    None
}

/// A result that carries bytes, with the bytes as a mathematical value.
pub open spec fn bytes_result(r: Result<Vec<u8>, FsError>) -> Result<Seq<u8>, FsError> {
    match r {
        Ok(d) => Ok(d@),
        Err(e) => Err(e),
    }
}

impl Txn {
    /// Hands over what a range scan over blocks `lo` up to `hi` of `ino`
    /// returned, as pairs of block index and bytes: a block of that
    /// range that is in no pair is a hole.
    pub fn supply_blocks(&mut self, ino: u64, lo: u64, hi: u64, pairs: &Vec<(u64, Vec<u8>)>)
        ensures
            final(self)@ == model::with_scan(old(self)@, ino, lo, hi, pairs@),
    {
        if lo >= hi {
            assert(self@ =~= model::with_scan(old(self)@, ino, lo, hi, pairs@));
            return ;
        }
        let mut b: u64 = lo;
        assert(self@ =~= model::with_scan(old(self)@, ino, lo, lo, pairs@));
        while b < hi
            invariant
                lo <= b <= hi,
                self@ == model::with_scan(old(self)@, ino, lo, b, pairs@),
            decreases hi - b,
        {
            let ghost before = self@;
            let ghost key = crate::store::KeyView::Block(ino, b);
            let found = find_block(pairs, b);
            let fresh = self.supply(Key::Block(ino, b), found);
            proof {
                assert(before.dom().contains(key) == old(self)@.dom().contains(key));
                let goal = model::with_scan(old(self)@, ino, lo, (b + 1) as u64, pairs@);
                assert forall|k: crate::store::KeyView|
                    self@.dom().contains(k) == goal.dom().contains(k) by {
                    if k != key {
                        assert(self@.dom().contains(k) == before.dom().contains(k));
                    }
                }
                assert forall|k: crate::store::KeyView| self@.dom().contains(k) implies self@[k]
                    == goal[k] by {
                    if k != key {
                        assert(self@[k] == before[k]);
                    }
                }
                assert(self@ =~= goal);
            }
            b += 1;
        }
    }

    /// Reads block `b` of `ino`; an absent block reads as zeros.
    pub fn read_block(&self, ino: u64, b: u64) -> (r: Result<Vec<u8>, FsError>)
        ensures
            bytes_result(r) == model::read_block(self@, ino, b),
    {
        match self.get(&Key::Block(ino, b))? {
            None => Ok(empty_block()),
            Some(Record::Bytes(d)) => {
                if d.len() as u64 == BLOCK_SIZE {
                    Ok(copy_bytes(d))
                } else {
                    Err(FsError::Corrupt)
                }
            },
            Some(_) => Err(FsError::Corrupt),
        }
    }

    /// Moves the inline content of `inode` into its block 0.
    pub fn transfer_inline_data_to_block(&mut self, inode: &mut Inode) -> (r: Result<(), FsError>)
        requires
            old(inode).inline_data is Some,
        ensures
            r is Ok,
            (final(self)@, final(inode)@) == model::transfer(old(self)@, old(inode)@),
    {
        let data = match &inode.inline_data {
            Some(d) => resize_bytes(d, BLOCK_SIZE as usize),
            None => empty_block(),
        };
        self.put(Key::Block(inode.file_attr.ino, 0), Record::Bytes(data));
        inode.inline_data = None;
        Ok(())
    }

    /// Writes `data` at `start` into the inline content of `inode`.
    pub fn write_inline_data(
        &mut self,
        inode: &mut Inode,
        start: u64,
        data: &Vec<u8>,
        now: Timestamp,
    ) -> (r: Result<usize, FsError>)
        requires
            start + data.len() <= usize::MAX,
        ensures
            r == Ok::<usize, FsError>(data.len()),
            (final(self)@, final(inode)@) == model::write_inline(
                old(self)@,
                old(inode)@,
                start,
                data@,
                now,
            ),
    {
        let size: usize = data.len();
        let inlined = match &inode.inline_data {
            Some(d) => overlay_bytes(d, start as usize, data),
            None => {
                let none: Vec<u8> = Vec::new();
                overlay_bytes(&none, start as usize, data)
            },
        };
        inode.file_attr.atime = now;
        inode.file_attr.mtime = now;
        inode.file_attr.ctime = now;
        inode.set_size(inlined.len() as u64);
        inode.inline_data = Some(inlined);
        self.save_inode(inode)?;
        Ok(size)
    }

    /// Reads `size` bytes at `start` from the inline content of `inode`.
    pub fn read_inline_data(&mut self, inode: &mut Inode, start: u64, size: u64, now: Timestamp) -> (r:
        Result<Vec<u8>, FsError>)
        requires
            old(inode).inline_data is Some,
            size <= usize::MAX,
        ensures
            r is Ok,
            (final(self)@, final(inode)@, r->Ok_0@) == model::read_inline(
                old(self)@,
                old(inode)@,
                start,
                size,
                now,
            ),
    {
        let data = match &inode.inline_data {
            Some(d) => window_bytes(d, start, size as usize),
            None => Vec::new(),
        };
        inode.file_attr.atime = now;
        self.save_inode(inode)?;
        Ok(data)
    }

    /// Reads up to `chunk_size` bytes of `ino` at `start`: as many as the
    /// file has from there on where `chunk_size` is `None`.
    #[verifier::loop_isolation(false)]
    pub fn read_data(&mut self, ino: u64, start: u64, chunk_size: Option<u64>, now: Timestamp) -> (r:
        Result<Vec<u8>, FsError>)
        requires
            model::read_len(old(self)@, ino, start, chunk_size) <= usize::MAX,
        ensures
            (final(self)@, bytes_result(r)) == model::read_data(
                old(self)@,
                ino,
                start,
                chunk_size,
                now,
            ),
    {
        let mut attr = self.read_inode(ino)?;
        if start >= attr.file_attr.size {
            return Ok(Vec::new());
        }
        let max_size: u64 = attr.file_attr.size - start;
        let size: u64 = match chunk_size {
            Some(c) => if c < max_size { c } else { max_size },
            None => max_size,
        };
        if attr.inline_data.is_some() {
            return self.read_inline_data(&mut attr, start, size, now);
        }
        let target: u64 = start + size;
        let start_block: u64 = start / BLOCK_SIZE;
        let end_block: u64 = block_count(target);

        let mut data: Vec<u8> = Vec::new();
        let mut b: u64 = start_block;
        let mut pos: u64 = start;
        while b < end_block
            invariant
                *self == *old(self),
                start_block <= b <= end_block,
                start_block == start / BLOCK_SIZE,
                end_block == blocks_for(target),
                start <= pos <= target,
                target == start + size,
                pos == (if b == start_block {
                    start as int
                } else if b < end_block {
                    b * BLOCK_SIZE
                } else {
                    target as int
                }),
                data@.len() == pos - start,
                forall|i: int| 0 <= i < pos - start ==> data@[i] == model::byte_at(self@, ino, start + i),
                model::block_error(self@, ino, start_block, end_block) == model::block_error(
                    self@,
                    ino,
                    b,
                    end_block,
                ),
            decreases end_block - b,
        {
            let block = self.read_block(ino, b)?;
            let off: u64 = pos % BLOCK_SIZE;
            let room: u64 = BLOCK_SIZE - off;
            let left: u64 = target - pos;
            let n: u64 = if room < left { room } else { left };
            assert(pos / BLOCK_SIZE == b);
            let ghost before = data@;
            let mut j: u64 = 0;
            while j < n
                invariant
                    j <= n,
                    off + n <= BLOCK_SIZE,
                    block@.len() == BLOCK_SIZE,
                    data@.len() == before.len() + j,
                    forall|i: int| 0 <= i < before.len() ==> data@[i] == before[i],
                    forall|i: int|
                        before.len() <= i < before.len() + j ==> #[trigger] data@[i] == block@[off + (
                            i - before.len())],
                decreases n - j,
            {
                data.push(block[(off + j) as usize]);
                j += 1;
            }
            proof {
                assert forall|i: int| 0 <= i < pos + n - start implies data@[i] == model::byte_at(
                    self@,
                    ino,
                    start + i,
                ) by {
                    if i >= pos - start {
                        let p = start + i;
                        assert(pos == b * BLOCK_SIZE + off);
                        assert(p == b * BLOCK_SIZE + (off + (p - pos)));
                        assert(p / (BLOCK_SIZE as int) == b as int);
                        assert(p % (BLOCK_SIZE as int) == off + (p - pos));
                        assert(model::read_block(self@, ino, b) == Ok::<Seq<u8>, FsError>(block@));
                        assert(data@[i] == block@[off + (i - before.len())]);
                    } else {
                        assert(data@[i] == before[i]);
                    }
                }
            }
            pos = pos + n;
            b = b + 1;
        }
        attr.file_attr.atime = now;
        self.save_inode(&attr)?;
        assert(data@ =~= Seq::new(size as nat, |i: int| model::byte_at(old(self)@, ino, start + i)));
        Ok(data)
    }

    /// Removes every block of `ino`, sets its size to zero and returns
    /// the size it had.
    pub fn clear_data(&mut self, ino: u64, now: Timestamp) -> (r: Result<u64, FsError>)
        ensures
            (final(self)@, r) == model::clear_data(old(self)@, ino, now),
    {
        let mut attr = self.read_inode(ino)?;
        let end_block: u64 = block_count(attr.file_attr.size);
        let mut block: u64 = 0;
        assert(self@ =~= model::cleared(old(self)@, ino, 0));
        while block < end_block
            invariant
                block <= end_block,
                self@ == model::cleared(old(self)@, ino, block),
            decreases end_block - block,
        {
            self.delete(Key::Block(ino, block));
            block += 1;
            assert(self@ =~= model::cleared(old(self)@, ino, block));
        }
        let clear_size: u64 = attr.file_attr.size;
        attr.file_attr.size = 0;
        attr.file_attr.atime = now;
        self.save_inode(&attr)?;
        Ok(clear_size)
    }

    /// Writes `data` at `start` into `ino` and returns how many bytes
    /// were written.
    #[verifier::loop_isolation(false)]
    pub fn write_data(&mut self, ino: u64, start: u64, data: Bytes, now: Timestamp) -> (r: Result<
        usize,
        FsError,
    >)
        requires
            start + content_bytes(data).len() <= u64::MAX,
        ensures
            (final(self)@, r) == model::write_data(old(self)@, ino, start, content_bytes(data), now),
    {
        let data: Vec<u8> = content_vec(&data);
        let mut inode = self.read_inode(ino)?;
        let size: usize = data.len();
        let target: u64 = start + size as u64;

        if inode.inline_data.is_some() && target > INLINE_DATA_THRESHOLD {
            self.transfer_inline_data_to_block(&mut inode)?;
        }
        if (inode.inline_data.is_some() || inode.file_attr.size == 0) && target
            <= INLINE_DATA_THRESHOLD {
            return self.write_inline_data(&mut inode, start, &data, now);
        }
        let mut block_index: u64 = start / BLOCK_SIZE;
        let start_index: usize = (start % BLOCK_SIZE) as usize;
        let first_block_size: usize = BLOCK_SIZE as usize - start_index;
        let first_len: usize = if first_block_size < size { first_block_size } else { size };

        let start_value = self.read_block(ino, block_index)?;
        let start_value = patch_bytes(&start_value, start_index, &data, 0, first_len);
        proof {
            assert(data@.subrange(0, first_len as int) =~= data@.take(first_len as int));
        }
        self.put(Key::Block(ino, block_index), Record::Bytes(start_value));

        let ghost goal = model::write_rest(self@, ino, block_index, data@.skip(first_len as int));
        let mut done: usize = first_len;
        while done < size
            invariant
                done <= size,
                size == data.len(),
                start + size <= u64::MAX,
                done < size ==> (block_index + 1) * BLOCK_SIZE == start + done,
                model::write_rest(self@, ino, block_index, data@.skip(done as int)) == goal,
            decreases size - done,
        {
            let ghost rest = data@.skip(done as int);
            block_index += 1;
            let left: usize = size - done;
            if left < BLOCK_SIZE as usize {
                let last_value = self.read_block(ino, block_index)?;
                let value = patch_bytes(&last_value, 0, &data, done, left);
                proof {
                    assert(data@.subrange(done as int, done + left) =~= rest);
                }
                self.put(Key::Block(ino, block_index), Record::Bytes(value));
                done = size;
                proof {
                    assert(data@.skip(done as int).len() == 0);
                }
            } else {
                let value = slice_bytes(&data, done, BLOCK_SIZE as usize);
                proof {
                    assert(data@.subrange(done as int, done + BLOCK_SIZE) =~= rest.take(
                        BLOCK_SIZE as int,
                    ));
                    assert(data@.skip(done + BLOCK_SIZE) =~= rest.skip(BLOCK_SIZE as int));
                }
                self.put(Key::Block(ino, block_index), Record::Bytes(value));
                done = done + BLOCK_SIZE as usize;
            }
        }
        proof {
            assert(data@.skip(done as int).len() == 0);
        }
        inode.file_attr.atime = now;
        inode.file_attr.mtime = now;
        inode.file_attr.ctime = now;
        let new_size: u64 = if inode.file_attr.size < target { target } else { inode.file_attr.size };
        inode.set_size(new_size);
        self.save_inode(&inode)?;
        Ok(size)
    }

    /// Writes `data` at `start` into `ino` where the write ends at an
    /// offset that a file can have; returns `None`, and changes nothing,
    /// where it does not.
    pub fn try_write_data(&mut self, ino: u64, start: u64, data: Bytes, now: Timestamp) -> (r: Option<
        Result<usize, FsError>,
    >)
        ensures
            r is Some == (start + content_bytes(data).len() <= u64::MAX),
            r matches Some(w) ==> (final(self)@, w) == model::write_data(
                old(self)@,
                ino,
                start,
                content_bytes(data),
                now,
            ),
            r is None ==> *final(self) == *old(self),
    {
        let len: usize = content_len(&data);
        if len as u64 > u64::MAX - start {
            None
        } else {
            Some(self.write_data(ino, start, data, now))
        }
    }

    /// Stores `data` as the target of the symlink `inode`, inline
    /// whatever its length.
    pub fn write_link(&mut self, inode: &mut Inode, data: Bytes, now: Timestamp) -> (r: Result<
        usize,
        FsError,
    >)
        ensures
            r == Ok::<usize, FsError>(content_bytes(data).len() as usize),
            (final(self)@, final(inode)@) == model::write_link(
                old(self)@,
                old(inode)@,
                content_bytes(data),
                now,
            ),
    {
        let data: Vec<u8> = content_vec(&data);
        inode.inline_data = None;
        inode.set_size(0);
        self.write_inline_data(inode, 0, &data, now)
    }

    /// Reads the target of the symlink `ino`.
    pub fn read_link(&mut self, ino: u64, now: Timestamp) -> (r: Result<Vec<u8>, FsError>)
        requires
            model::read_len(old(self)@, ino, 0, None) <= usize::MAX,
            model::read_inode(old(self)@, ino) matches Ok(i) ==> i.inline_data is Some,
        ensures
            (final(self)@, bytes_result(r)) == model::read_link(old(self)@, ino, now),
    {
        let mut inode = self.read_inode(ino)?;
        let size: u64 = inode.file_attr.size;
        self.read_inline_data(&mut inode, 0, size, now)
    }

    /// Grows the file of `inode` to hold `length` bytes at `offset`; a
    /// file that is already that large stays as it is.
    pub fn fallocate(&mut self, inode: &mut Inode, offset: i64, length: i64, now: Timestamp) -> (r:
        Result<(), FsError>)
        requires
            i64::MIN <= offset + length <= i64::MAX,
        ensures
            r is Ok,
            (final(self)@, final(inode)@) == model::fallocate(
                old(self)@,
                old(inode)@,
                offset,
                length,
                now,
            ),
    {
        let sum: i64 = offset + length;
        let target_size: u64 = if sum >= 0 {
            sum as u64
        } else {
            u64::MAX - ((-(sum + 1)) as u64)
        };
        if target_size <= inode.file_attr.size {
            return Ok(());
        }
        if inode.inline_data.is_some() {
            if target_size <= INLINE_DATA_THRESHOLD {
                let old_size: u64 = inode.file_attr.size;
                let data = zero_bytes((target_size - old_size) as usize);
                self.write_inline_data(inode, old_size, &data, now)?;
                return Ok(());
            } else {
                self.transfer_inline_data_to_block(inode)?;
            }
        }
        inode.set_size(target_size);
        inode.file_attr.mtime = now;
        self.save_inode(inode)?;
        Ok(())
    }
}

} // verus!
