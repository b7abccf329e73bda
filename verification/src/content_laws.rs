//! What holds of reading and writing file content.
use vstd::prelude::*;
use crate::error::FsError;
use crate::inode::Timestamp;
use crate::layout::{BLOCK_SIZE, INLINE_DATA_THRESHOLD};
use crate::model::{
    byte_at, clamp_len, clear_data, overlay, put_block, read_block, read_data, read_inode,
    read_meta, write_blocks, write_data, write_rest,
};
use crate::store::{KeyView, State};

verus! {

/// From position `from` on, the blocks of `ino` hold zeros only.
pub open spec fn tail_clean(s: State, ino: u64, from: int) -> bool {
    forall|pos: int| from <= pos <= u64::MAX ==> #[trigger] byte_at(s, ino, pos) == 0
}

/// The file `ino` is stored as it should be: inline content is the
/// whole file and small, and no block holds a byte behind the file's end.
pub open spec fn content_ok(s: State, ino: u64) -> bool {
    read_inode(s, ino) matches Ok(i) && match i.inline_data {
        Some(d) => d.len() == i.file_attr.size && i.file_attr.size <= INLINE_DATA_THRESHOLD
            && tail_clean(s, ino, 0),
        None => tail_clean(s, ino, i.file_attr.size as int),
    }
}

/// The bytes of the file `ino`.
pub open spec fn file_content(s: State, ino: u64) -> Seq<u8> {
    let i = read_inode(s, ino)->Ok_0;
    match i.inline_data {
        Some(d) => d,
        None => Seq::new(i.file_attr.size as nat, |pos: int| byte_at(s, ino, pos)),
    }
}

/// A read that succeeds returns the bytes of the file from `start` on,
/// as many as were asked for and the file has.
pub proof fn lemma_read_returns_content(
    s: State,
    ino: u64,
    start: u64,
    chunk_size: Option<u64>,
    now: Timestamp,
)
    requires
        content_ok(s, ino),
        read_data(s, ino, start, chunk_size, now).1 is Ok,
    ensures
        ({
            let n = clamp_len(file_content(s, ino).len() as u64, start, chunk_size);
            let got = read_data(s, ino, start, chunk_size, now).1->Ok_0;
            &&& file_content(s, ino).len() == read_inode(s, ino)->Ok_0.file_attr.size
            &&& n > 0 ==> got == file_content(s, ino).subrange(start as int, start + n)
            &&& n == 0 ==> got == Seq::<u8>::empty()
        }),
{
    let i = read_inode(s, ino)->Ok_0;
    let n = clamp_len(i.file_attr.size, start, chunk_size);
    let got = read_data(s, ino, start, chunk_size, now).1->Ok_0;
    if start < i.file_attr.size {
        assert(got =~= file_content(s, ino).subrange(start as int, start + n));
    }
    if n == 0 {
        assert(got =~= Seq::<u8>::empty());
    }
}

/// The keys that a write to the blocks of `ino` leaves alone hold what
/// they held.
pub open spec fn same_but_blocks(s: State, after: State, ino: u64) -> bool {
    forall|k: KeyView|
        !(k matches KeyView::Block(i, _) && i == ino) ==> (#[trigger] after.dom().contains(k)
            == s.dom().contains(k) && after[k] == s[k])
}

/// The bytes of `ino` after `data` was written at `start`: the written
/// bytes in their place, the others as before.
pub open spec fn bytes_written(s: State, after: State, ino: u64, start: int, data: Seq<u8>) -> bool {
    forall|pos: int|
        0 <= pos <= u64::MAX ==> #[trigger] byte_at(after, ino, pos) == (if start <= pos < start
            + data.len() {
            data[pos - start]
        } else {
            byte_at(s, ino, pos)
        })
}

/// Writing one block changes the bytes of that block and no others.
pub proof fn lemma_put_block_bytes(s: State, ino: u64, b: u64, d: Seq<u8>, pos: int)
    requires
        d.len() == BLOCK_SIZE,
        0 <= pos <= u64::MAX,
    ensures
        byte_at(put_block(s, ino, b, d), ino, pos) == (if pos / (BLOCK_SIZE as int) == b {
            d[pos % (BLOCK_SIZE as int)]
        } else {
            byte_at(s, ino, pos)
        }),
{
}

/// Writing whole blocks behind block `b` puts the written bytes in
/// their place and leaves every other byte and record as it was.
pub proof fn lemma_write_rest_bytes(s: State, ino: u64, b: u64, rest: Seq<u8>)
    requires
        rest.len() > 0 ==> (b + 1) * BLOCK_SIZE + rest.len() <= u64::MAX,
        write_rest(s, ino, b, rest).1 is Ok,
    ensures
        bytes_written(s, write_rest(s, ino, b, rest).0, ino, (b + 1) * BLOCK_SIZE, rest),
        same_but_blocks(s, write_rest(s, ino, b, rest).0, ino),
    decreases rest.len(),
{
    let after = write_rest(s, ino, b, rest).0;
    let base = (b + 1) * BLOCK_SIZE;
    if rest.len() == 0 {
    } else {
        let nb = (b + 1) as u64;
        if rest.len() < BLOCK_SIZE {
            let d = read_block(s, ino, nb)->Ok_0;
            let patch = crate::model::patched(d, 0, rest);
            assert forall|pos: int| 0 <= pos <= u64::MAX implies #[trigger] byte_at(after, ino, pos)
                == (if base <= pos < base + rest.len() {
                rest[pos - base]
            } else {
                byte_at(s, ino, pos)
            }) by {
                lemma_put_block_bytes(s, ino, nb, patch, pos);
                if pos / (BLOCK_SIZE as int) == nb {
                    assert(pos == base + pos % (BLOCK_SIZE as int));
                }
            }
        } else {
            let blk = rest.take(BLOCK_SIZE as int);
            let s1 = put_block(s, ino, nb, blk);
            let more = rest.skip(BLOCK_SIZE as int);
            lemma_write_rest_bytes(s1, ino, nb, more);
            assert forall|pos: int| 0 <= pos <= u64::MAX implies #[trigger] byte_at(after, ino, pos)
                == (if base <= pos < base + rest.len() {
                rest[pos - base]
            } else {
                byte_at(s, ino, pos)
            }) by {
                lemma_put_block_bytes(s, ino, nb, blk, pos);
                if pos / (BLOCK_SIZE as int) == nb {
                    assert(pos == base + pos % (BLOCK_SIZE as int));
                }
                if base + BLOCK_SIZE <= pos < base + rest.len() {
                    assert(more[pos - (base + BLOCK_SIZE)] == rest[pos - base]);
                }
            }
            assert forall|k: KeyView| !(k matches KeyView::Block(i, _) && i == ino) implies (
            #[trigger] after.dom().contains(k) == s.dom().contains(k) && after[k] == s[k]) by {
                assert(s1.dom().contains(k) == s.dom().contains(k));
            }
        }
    }
}

/// Writing into the blocks puts the written bytes in their place and
/// leaves every other byte and record as it was.
pub proof fn lemma_write_blocks_bytes(s: State, ino: u64, start: u64, data: Seq<u8>)
    requires
        start + data.len() <= u64::MAX,
        write_blocks(s, ino, start, data).1 is Ok,
    ensures
        bytes_written(s, write_blocks(s, ino, start, data).0, ino, start as int, data),
        same_but_blocks(s, write_blocks(s, ino, start, data).0, ino),
{
    let after = write_blocks(s, ino, start, data).0;
    let b0 = start / BLOCK_SIZE;
    let off = (start % BLOCK_SIZE) as int;
    let n0 = crate::model::first_len(start, data.len() as int);
    let d = read_block(s, ino, b0)->Ok_0;
    let first = crate::model::patched(d, off, data.take(n0));
    let s1 = put_block(s, ino, b0, first);
    let rest = data.skip(n0);
    let base = (b0 + 1) * BLOCK_SIZE;
    assert(start == b0 * BLOCK_SIZE + off);
    lemma_write_rest_bytes(s1, ino, b0, rest);
    assert forall|pos: int| 0 <= pos <= u64::MAX implies #[trigger] byte_at(after, ino, pos) == (
    if start <= pos < start + data.len() {
        data[pos - start]
    } else {
        byte_at(s, ino, pos)
    }) by {
        lemma_put_block_bytes(s, ino, b0, first, pos);
        if pos / (BLOCK_SIZE as int) == b0 {
            assert(pos == b0 * BLOCK_SIZE + pos % (BLOCK_SIZE as int));
        }
        if rest.len() > 0 && base <= pos < base + rest.len() {
            assert(rest[pos - base] == data[pos - start]);
        }
    }
    assert forall|k: KeyView| !(k matches KeyView::Block(i, _) && i == ino) implies (
    #[trigger] after.dom().contains(k) == s.dom().contains(k) && after[k] == s[k]) by {
        assert(s1.dom().contains(k) == s.dom().contains(k));
    }
}

/// Writing `data` at `start` into a file that is stored as it should
/// be leaves it so, and its bytes are then the old ones with `data`
/// laid over them at `start`: the file grows to hold the write, and a
/// gap between its old end and `start` reads as zeros. This holds
/// whether the content stays inline, moves into blocks, or was in blocks.
pub proof fn lemma_write_updates_content(
    s: State,
    ino: u64,
    start: u64,
    data: Seq<u8>,
    now: Timestamp,
)
    requires
        content_ok(s, ino),
        start + data.len() <= u64::MAX,
        write_data(s, ino, start, data, now).1 is Ok,
    ensures
        content_ok(write_data(s, ino, start, data, now).0, ino),
        file_content(write_data(s, ino, start, data, now).0, ino) == overlay(
            file_content(s, ino),
            start as int,
            data,
        ),
{
    let after = write_data(s, ino, start, data, now).0;
    let inode = read_inode(s, ino)->Ok_0;
    let target = start + data.len();
    let old_bytes = file_content(s, ino);
    let promoted = if inode.inline_data is Some && target > INLINE_DATA_THRESHOLD {
        crate::model::transfer(s, inode)
    } else {
        (s, inode)
    };
    if (promoted.1.inline_data is Some || promoted.1.file_attr.size == 0) && target
        <= INLINE_DATA_THRESHOLD {
        assert(crate::model::inline_of(promoted.1) =~= old_bytes);
        assert forall|pos: int| 0 <= pos <= u64::MAX implies #[trigger] byte_at(after, ino, pos)
            == 0 by {
            assert(byte_at(after, ino, pos) == byte_at(s, ino, pos));
        }
        assert(file_content(after, ino) =~= overlay(old_bytes, start as int, data));
    } else {
        let s1 = promoted.0;
        let written = write_blocks(s1, ino, start, data);
        lemma_write_blocks_bytes(s1, ino, start, data);
        let new_size = crate::model::larger(promoted.1.file_attr.size, target as u64);
        assert(read_inode(after, ino)->Ok_0.file_attr.size == new_size);
        assert(read_inode(after, ino)->Ok_0.inline_data is None);
        // what the blocks held before the write, seen from the old content
        assert forall|pos: int| 0 <= pos <= u64::MAX implies #[trigger] byte_at(s1, ino, pos) == (
        if pos < old_bytes.len() {
            old_bytes[pos]
        } else {
            0u8
        }) by {
            if inode.inline_data is Some {
                lemma_put_block_bytes(
                    s,
                    ino,
                    0,
                    crate::model::resized(inode.inline_data->0, BLOCK_SIZE as int),
                    pos,
                );
                if pos / (BLOCK_SIZE as int) != 0 {
                    assert(byte_at(s, ino, pos) == 0);
                }
            } else {
                if pos >= old_bytes.len() {
                    assert(byte_at(s, ino, pos) == 0);
                }
            }
        }
        assert forall|pos: int| 0 <= pos <= u64::MAX implies #[trigger] byte_at(after, ino, pos)
            == byte_at(written.0, ino, pos) by {}
        assert forall|pos: int| new_size <= pos <= u64::MAX implies #[trigger] byte_at(
            after,
            ino,
            pos,
        ) == 0 by {
            assert(byte_at(after, ino, pos) == byte_at(written.0, ino, pos));
            assert(byte_at(written.0, ino, pos) == byte_at(s1, ino, pos));
        }
        assert forall|pos: int| 0 <= pos < new_size implies file_content(after, ino)[pos] == overlay(
            old_bytes,
            start as int,
            data,
        )[pos] by {
            assert(byte_at(after, ino, pos) == byte_at(written.0, ino, pos));
            if !(start <= pos < start + data.len()) {
                assert(byte_at(written.0, ino, pos) == byte_at(s1, ino, pos));
            }
        }
        assert(file_content(after, ino) =~= overlay(old_bytes, start as int, data));
    }
}

/// Reading, writing and emptying a file leave the inode counter as it is.
pub proof fn lemma_content_keeps_counter(
    s: State,
    ino: u64,
    start: u64,
    data: Seq<u8>,
    chunk_size: Option<u64>,
    now: Timestamp,
)
    requires
        start + data.len() <= u64::MAX,
    ensures
        read_meta(read_data(s, ino, start, chunk_size, now).0) == read_meta(s),
        read_meta(clear_data(s, ino, now).0) == read_meta(s),
        write_data(s, ino, start, data, now).1 is Ok ==> read_meta(
            write_data(s, ino, start, data, now).0,
        ) == read_meta(s),
{
    if write_data(s, ino, start, data, now).1 is Ok {
        let inode = read_inode(s, ino)->Ok_0;
        let target = start + data.len();
        let promoted = if inode.inline_data is Some && target > INLINE_DATA_THRESHOLD {
            crate::model::transfer(s, inode)
        } else {
            (s, inode)
        };
        if !((promoted.1.inline_data is Some || promoted.1.file_attr.size == 0) && target
            <= INLINE_DATA_THRESHOLD) {
            lemma_write_blocks_bytes(promoted.0, ino, start, data);
            let written = write_blocks(promoted.0, ino, start, data).0;
            assert(written.dom().contains(KeyView::Meta) == promoted.0.dom().contains(KeyView::Meta));
        }
    }
}

/// Reading back the range that was just written returns the written
/// bytes, whether the content is inline or in blocks.
pub proof fn lemma_write_then_read(
    s: State,
    ino: u64,
    start: u64,
    data: Seq<u8>,
    now: Timestamp,
    later: Timestamp,
)
    requires
        content_ok(s, ino),
        start + data.len() <= u64::MAX,
        write_data(s, ino, start, data, now).1 is Ok,
        read_data(
            write_data(s, ino, start, data, now).0,
            ino,
            start,
            Some(data.len() as u64),
            later,
        ).1 is Ok,
    ensures
        read_data(
            write_data(s, ino, start, data, now).0,
            ino,
            start,
            Some(data.len() as u64),
            later,
        ).1 == Ok::<Seq<u8>, FsError>(data),
{
    let after = write_data(s, ino, start, data, now).0;
    lemma_write_updates_content(s, ino, start, data, now);
    lemma_read_returns_content(after, ino, start, Some(data.len() as u64), later);
    let got = read_data(after, ino, start, Some(data.len() as u64), later).1->Ok_0;
    assert(got =~= data);
}

/// Reading a whole file after a write returns the bytes it had with
/// the written bytes laid over them: so a write that moves inline
/// content into blocks shows the old bytes unchanged, and a write far
/// behind the end shows zeros up to the written bytes.
pub proof fn lemma_write_then_read_all(
    s: State,
    ino: u64,
    start: u64,
    data: Seq<u8>,
    now: Timestamp,
    later: Timestamp,
)
    requires
        content_ok(s, ino),
        start + data.len() <= u64::MAX,
        write_data(s, ino, start, data, now).1 is Ok,
        read_data(write_data(s, ino, start, data, now).0, ino, 0, None, later).1 is Ok,
    ensures
        read_data(write_data(s, ino, start, data, now).0, ino, 0, None, later).1 == Ok::<
            Seq<u8>,
            FsError,
        >(overlay(file_content(s, ino), start as int, data)),
{
    let after = write_data(s, ino, start, data, now).0;
    lemma_write_updates_content(s, ino, start, data, now);
    lemma_read_returns_content(after, ino, 0, None, later);
    let got = read_data(after, ino, 0, None, later).1->Ok_0;
    let all = overlay(file_content(s, ino), start as int, data);
    assert(got =~= all);
}

} // verus!
