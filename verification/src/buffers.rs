//! Byte buffers: the cutting, filling and overlaying that file content needs.
use vstd::prelude::*;
use crate::layout::BLOCK_SIZE;
use crate::model::{overlay, patched, resized, window, zeros};

verus! {

/// `n` zero bytes.
pub fn zero_bytes(n: usize) -> (out: Vec<u8>)
    ensures
        out@ == zeros(n as int),
{
    let mut out: Vec<u8> = Vec::new();
    let mut i: usize = 0;
    while i < n
        invariant
            i <= n,
            out@.len() == i,
            forall|j: int| 0 <= j < i ==> out@[j] == 0u8,
        decreases n - i,
    {
        out.push(0u8);
        i += 1;
    }
    assert(out@ =~= zeros(n as int));
    out
}

/// A block of zeros.
pub fn empty_block() -> (out: Vec<u8>)
    ensures
        out@ == zeros(BLOCK_SIZE as int),
{
    zero_bytes(BLOCK_SIZE as usize)
}

/// `d` cut or filled with zeros to length `n`.
pub fn resize_bytes(d: &Vec<u8>, n: usize) -> (out: Vec<u8>)
    ensures
        out@ == resized(d@, n as int),
{
    let mut out: Vec<u8> = Vec::new();
    let mut i: usize = 0;
    while i < n
        invariant
            i <= n,
            out@.len() == i,
            forall|j: int| 0 <= j < i ==> out@[j] == resized(d@, n as int)[j],
        decreases n - i,
    {
        let b: u8 = if i < d.len() { d[i] } else { 0u8 };
        out.push(b);
        i += 1;
    }
    assert(out@ =~= resized(d@, n as int));
    out
}

/// `base` with `data` written at `start`, grown where the write needs it.
pub fn overlay_bytes(base: &Vec<u8>, start: usize, data: &Vec<u8>) -> (out: Vec<u8>)
    requires
        start + data.len() <= usize::MAX,
    ensures
        out@ == overlay(base@, start as int, data@),
{
    let end: usize = start + data.len();
    let n: usize = if end > base.len() { end } else { base.len() };
    let mut out: Vec<u8> = Vec::new();
    let mut i: usize = 0;
    while i < n
        invariant
            i <= n,
            end == start + data.len(),
            n == overlay(base@, start as int, data@).len(),
            out@.len() == i,
            forall|j: int| 0 <= j < i ==> out@[j] == overlay(base@, start as int, data@)[j],
        decreases n - i,
    {
        let b: u8 = if start <= i && i < end {
            data[i - start]
        } else if i < base.len() {
            base[i]
        } else {
            0u8
        };
        out.push(b);
        i += 1;
    }
    assert(out@ =~= overlay(base@, start as int, data@));
    out
}

/// `base` with `n` bytes from `at` on replaced by those of `src` from `from` on.
pub fn patch_bytes(base: &Vec<u8>, at: usize, src: &Vec<u8>, from: usize, n: usize) -> (out: Vec<u8>)
    requires
        at + n <= base.len(),
        from + n <= src.len(),
    ensures
        out@ == patched(base@, at as int, src@.subrange(from as int, from + n)),
{
    let ghost chunk = src@.subrange(from as int, from + n);
    let mut out: Vec<u8> = Vec::new();
    let mut i: usize = 0;
    while i < base.len()
        invariant
            i <= base.len(),
            at + n <= base.len(),
            from + n <= src.len(),
            chunk == src@.subrange(from as int, from + n),
            out@.len() == i,
            forall|j: int| 0 <= j < i ==> out@[j] == patched(base@, at as int, chunk)[j],
        decreases base.len() - i,
    {
        let b: u8 = if at <= i && i < at + n { src[from + (i - at)] } else { base[i] };
        out.push(b);
        i += 1;
    }
    assert(out@ =~= patched(base@, at as int, chunk));
    out
}

/// The `n` bytes of `src` from `from` on.
pub fn slice_bytes(src: &Vec<u8>, from: usize, n: usize) -> (out: Vec<u8>)
    requires
        from + n <= src.len(),
    ensures
        out@ == src@.subrange(from as int, from + n),
{
    let mut out: Vec<u8> = Vec::new();
    let mut i: usize = 0;
    while i < n
        invariant
            i <= n,
            from + n <= src.len(),
            out@.len() == i,
            forall|j: int| 0 <= j < i ==> out@[j] == src@[from + j],
        decreases n - i,
    {
        out.push(src[from + i]);
        i += 1;
    }
    assert(out@ =~= src@.subrange(from as int, from + n));
    out
}

/// The `size` bytes of `d` from `start` on, zero where `d` has ended.
pub fn window_bytes(d: &Vec<u8>, start: u64, size: usize) -> (out: Vec<u8>)
    ensures
        out@ == window(d@, start as int, size as int),
{
    let mut out: Vec<u8> = Vec::new();
    let mut i: usize = 0;
    let len: u64 = d.len() as u64;
    while i < size
        invariant
            i <= size,
            len == d.len(),
            out@.len() == i,
            forall|j: int| 0 <= j < i ==> out@[j] == window(d@, start as int, size as int)[j],
        decreases size - i,
    {
        let b: u8 = if start < len && (i as u64) < len - start {
            d[(start + i as u64) as usize]
        } else {
            0u8
        };
        out.push(b);
        i += 1;
    }
    assert(out@ =~= window(d@, start as int, size as int));
    out
}

} // verus!
