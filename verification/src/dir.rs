//! Directory listings and their stored form.
//!
//! A listing is stored as its entries one after another: the inode
//! number in eight bytes, one byte for the kind, the length of the name
//! in eight bytes, then the name. Numbers are little-endian.
use vstd::prelude::*;
use vstd::bytes::{
    lemma_auto_spec_u64_to_from_le_bytes, spec_u64_from_le_bytes, spec_u64_to_le_bytes,
    u64_from_le_bytes, u64_to_le_bytes,
};
use vstd::slice::slice_subrange;
use crate::inode::{copy_bytes, FileKind};
use crate::store::bytes_eq;

verus! {

/// One entry of a directory listing.
#[derive(Clone, Debug, PartialEq, Eq)]
pub struct DirItem {
    pub ino: u64,
    pub name: Vec<u8>,
    pub typ: FileKind,
}

pub struct DirItemView {
    pub ino: u64,
    pub name: Seq<u8>,
    pub typ: FileKind,
}

impl View for DirItem {
    type V = DirItemView;

    open spec fn view(&self) -> DirItemView {
        DirItemView { ino: self.ino, name: self.name@, typ: self.typ }
    }
}

/// A directory listing, in insertion order.
pub type Directory = Vec<DirItem>;

/// The entries of a listing as mathematical values.
pub open spec fn listing(items: Seq<DirItem>) -> Seq<DirItemView> {
    items.map_values(|e: DirItem| e@)
}

pub open spec fn kind_byte(kind: FileKind) -> u8 {
    match kind {
        FileKind::NamedPipe => 0,
        FileKind::CharDevice => 1,
        FileKind::BlockDevice => 2,
        FileKind::Directory => 3,
        FileKind::RegularFile => 4,
        FileKind::Symlink => 5,
        FileKind::Socket => 6,
    }
}

pub open spec fn kind_of_byte(b: u8) -> Option<FileKind> {
    if b == 0 {
        Some(FileKind::NamedPipe)
    } else if b == 1 {
        Some(FileKind::CharDevice)
    } else if b == 2 {
        Some(FileKind::BlockDevice)
    } else if b == 3 {
        Some(FileKind::Directory)
    } else if b == 4 {
        Some(FileKind::RegularFile)
    } else if b == 5 {
        Some(FileKind::Symlink)
    } else if b == 6 {
        Some(FileKind::Socket)
    } else {
        None
    }
}

/// Bytes of an entry before its name.
pub const ITEM_HEADER: usize = 17;

/// The stored form of one entry.
pub open spec fn encode_item(e: DirItemView) -> Seq<u8> {
    spec_u64_to_le_bytes(e.ino) + seq![kind_byte(e.typ)] + spec_u64_to_le_bytes(e.name.len() as u64)
        + e.name
}

/// The stored form of a listing.
pub open spec fn encode_spec(items: Seq<DirItemView>) -> Seq<u8>
    decreases items.len(),
{
    if items.len() == 0 {
        Seq::empty()
    } else {
        encode_spec(items.drop_last()) + encode_item(items.last())
    }
}

/// `tail` put behind `head`, where there is a `tail`.
pub open spec fn prepend(head: Seq<DirItemView>, tail: Option<Seq<DirItemView>>) -> Option<
    Seq<DirItemView>,
> {
    match tail {
        Some(t) => Some(head + t),
        None => None,
    }
}

/// The listing that bytes are the stored form of, if they are one.
pub open spec fn decode_spec(b: Seq<u8>) -> Option<Seq<DirItemView>>
    decreases b.len(),
{
    if b.len() == 0 {
        Some(Seq::empty())
    } else if b.len() < 17 {
        None
    } else {
        let ino = spec_u64_from_le_bytes(b.subrange(0, 8));
        let kind = kind_of_byte(b[8]);
        let n = spec_u64_from_le_bytes(b.subrange(9, 17));
        if kind is None || n > b.len() - 17 {
            None
        } else {
            let e = DirItemView { ino: ino, name: b.subrange(17, 17 + n), typ: kind->0 };
            prepend(seq![e], decode_spec(b.subrange(17 + n, b.len() as int)))
        }
    }
}

/// A listing that starts with `e` is stored as `e` followed by the rest.
pub proof fn lemma_encode_front(e: DirItemView, rest: Seq<DirItemView>)
    ensures
        encode_spec(seq![e] + rest) == encode_item(e) + encode_spec(rest),
    decreases rest.len(),
{
    let all = seq![e] + rest;
    if rest.len() == 0 {
        assert(all.drop_last() =~= Seq::<DirItemView>::empty());
        assert(encode_spec(all.drop_last()) =~= Seq::<u8>::empty());
        assert(encode_spec(all) =~= encode_item(e) + encode_spec(rest));
    } else {
        lemma_encode_front(e, rest.drop_last());
        assert(all.drop_last() =~= seq![e] + rest.drop_last());
        assert(all.last() == rest.last());
        assert(encode_spec(all) =~= encode_item(e) + encode_spec(rest));
    }
}

/// Reading back the stored form of a listing gives the listing.
pub proof fn lemma_decode_encode(items: Seq<DirItemView>)
    requires
        forall|i: int| 0 <= i < items.len() ==> (#[trigger] items[i]).name.len() <= u64::MAX,
    ensures
        decode_spec(encode_spec(items)) == Some(items),
    decreases items.len(),
{
    if items.len() == 0 {
        assert(decode_spec(encode_spec(items)).unwrap() =~= items);
    } else {
        let e = items[0];
        let rest = items.drop_first();
        assert(items =~= seq![e] + rest);
        lemma_encode_front(e, rest);
        lemma_decode_encode(rest);
        lemma_auto_spec_u64_to_from_le_bytes();
        let b = encode_spec(items);
        let tail = encode_spec(rest);
        let n = e.name.len() as u64;
        assert(b == encode_item(e) + tail);
        assert(b.len() == 17 + e.name.len() + tail.len());
        assert(b.subrange(0, 8) =~= spec_u64_to_le_bytes(e.ino));
        assert(b[8] == kind_byte(e.typ));
        assert(b.subrange(9, 17) =~= spec_u64_to_le_bytes(n));
        assert(b.subrange(17, 17 + n) =~= e.name);
        assert(b.subrange(17 + n, b.len() as int) =~= tail);
        assert(kind_of_byte(kind_byte(e.typ)) == Some(e.typ));
        assert(seq![e] + rest =~= items);
    }
}

/// The byte that stands for a kind.
pub fn kind_to_byte(kind: FileKind) -> (b: u8)
    ensures
        b == kind_byte(kind),
{
    match kind {
        FileKind::NamedPipe => 0,
        FileKind::CharDevice => 1,
        FileKind::BlockDevice => 2,
        FileKind::Directory => 3,
        FileKind::RegularFile => 4,
        FileKind::Symlink => 5,
        FileKind::Socket => 6,
    }
}

/// The kind that a byte stands for.
pub fn byte_to_kind(b: u8) -> (k: Option<FileKind>)
    ensures
        k == kind_of_byte(b),
{
    if b == 0 {
        Some(FileKind::NamedPipe)
    } else if b == 1 {
        Some(FileKind::CharDevice)
    } else if b == 2 {
        Some(FileKind::BlockDevice)
    } else if b == 3 {
        Some(FileKind::Directory)
    } else if b == 4 {
        Some(FileKind::RegularFile)
    } else if b == 5 {
        Some(FileKind::Symlink)
    } else if b == 6 {
        Some(FileKind::Socket)
    } else {
        None
    }
}

/// Puts `src` behind `out`.
pub fn append_bytes(out: &mut Vec<u8>, src: &Vec<u8>)
    ensures
        final(out)@ == old(out)@ + src@,
{
    let mut i: usize = 0;
    while i < src.len()
        invariant
            i <= src.len(),
            out@ == old(out)@ + src@.take(i as int),
        decreases src.len() - i,
    {
        out.push(src[i]);
        i += 1;
        assert(src@.take(i as int) =~= src@.take(i - 1).push(src@[i - 1]));
        assert(out@ =~= old(out)@ + src@.take(i as int));
    }
    assert(src@.take(src.len() as int) =~= src@);
}

/// The stored form of a listing.
pub fn encode(dir: &Vec<DirItem>) -> (out: Vec<u8>)
    ensures
        out@ == encode_spec(listing(dir@)),
{
    let mut out: Vec<u8> = Vec::new();
    let mut i: usize = 0;
    while i < dir.len()
        invariant
            i <= dir.len(),
            out@ == encode_spec(listing(dir@).take(i as int)),
        decreases dir.len() - i,
    {
        let ghost before = out@;
        let item = &dir[i];
        let ino_bytes = u64_to_le_bytes(item.ino);
        let len_bytes = u64_to_le_bytes(item.name.len() as u64);
        append_bytes(&mut out, &ino_bytes);
        out.push(kind_to_byte(item.typ));
        append_bytes(&mut out, &len_bytes);
        append_bytes(&mut out, &item.name);
        i += 1;
        proof {
            let l = listing(dir@);
            assert(l.take(i as int).drop_last() =~= l.take(i - 1));
            assert(l.take(i as int).last() == item@);
            assert(out@ =~= before + encode_item(item@));
        }
    }
    assert(listing(dir@).take(dir.len() as int) =~= listing(dir@));
    out
}

/// Reads a listing back from its stored form; `None` where the bytes
/// are not the stored form of any listing.
pub fn decode(data: &Vec<u8>) -> (r: Option<Vec<DirItem>>)
    ensures
        match r {
            Some(d) => decode_spec(data@) == Some(listing(d@)),
            None => decode_spec(data@) is None,
        },
{
    let mut out: Vec<DirItem> = Vec::new();
    let mut pos: usize = 0;
    let len: usize = data.len();
    proof {
        assert(data@.subrange(0, len as int) =~= data@);
        let whole = decode_spec(data@);
        if whole is Some {
            assert(listing(out@) + whole->0 =~= whole->0);
        }
    }
    while pos < len
        invariant
            pos <= len,
            len == data.len(),
            decode_spec(data@) == prepend(
                listing(out@),
                decode_spec(data@.subrange(pos as int, len as int)),
            ),
        decreases len - pos,
    {
        let ghost tail = data@.subrange(pos as int, len as int);
        if len - pos < ITEM_HEADER {
            return None;
        }
        let ino = u64_from_le_bytes(slice_subrange(data.as_slice(), pos, pos + 8));
        let kb = data[pos + 8];
        let n = u64_from_le_bytes(slice_subrange(data.as_slice(), pos + 9, pos + 17));
        proof {
            assert(tail.subrange(0, 8) =~= data@.subrange(pos as int, pos + 8));
            assert(tail.subrange(9, 17) =~= data@.subrange(pos + 9, pos + 17));
            assert(tail[8] == data@[pos + 8]);
        }
        let typ = match byte_to_kind(kb) {
            Some(k) => k,
            None => {
                return None;
            },
        };
        if n > (len - pos - ITEM_HEADER) as u64 {
            return None;
        }
        let start: usize = pos + ITEM_HEADER;
        let end: usize = start + n as usize;
        let mut name: Vec<u8> = Vec::new();
        let mut j: usize = start;
        while j < end
            invariant
                start <= j <= end <= len,
                len == data.len(),
                name@ == data@.subrange(start as int, j as int),
            decreases end - j,
        {
            name.push(data[j]);
            j += 1;
            assert(data@.subrange(start as int, j as int) =~= data@.subrange(
                start as int,
                j - 1,
            ).push(data@[j - 1]));
        }
        let item = DirItem { ino, name, typ };
        proof {
            assert(tail.subrange(17, 17 + n) =~= data@.subrange(start as int, end as int));
            assert(tail.subrange(17 + n, tail.len() as int) =~= data@.subrange(
                end as int,
                len as int,
            ));
            let rest = decode_spec(data@.subrange(end as int, len as int));
            assert(decode_spec(tail) == prepend(seq![item@], rest));
            assert(listing(out@.push(item)) =~= listing(out@).push(item@));
            if rest is Some {
                assert(listing(out@) + (seq![item@] + rest->0) =~= listing(out@).push(item@)
                    + rest->0);
            }
        }
        out.push(item);
        pos = end;
    }
    proof {
        assert(data@.subrange(len as int, len as int) =~= Seq::<u8>::empty());
        assert(listing(out@) + Seq::<DirItemView>::empty() =~= listing(out@));
    }
    Some(out)
}

/// The listing without the entries called `name`.
pub open spec fn without_name(items: Seq<DirItemView>, name: Seq<u8>) -> Seq<DirItemView> {
    items.filter(|e: DirItemView| e.name != name)
}

/// A copy of the listing without the entries called `name`.
pub fn remove_name(dir: &Vec<DirItem>, name: &Vec<u8>) -> (out: Vec<DirItem>)
    ensures
        listing(out@) == without_name(listing(dir@), name@),
{
    let mut out: Vec<DirItem> = Vec::new();
    let mut i: usize = 0;
    let ghost keep = |e: DirItemView| e.name != name@;
    proof {
        assert(listing(dir@).take(0) =~= Seq::<DirItemView>::empty());
        assert(listing(out@) =~= Seq::<DirItemView>::empty());
    }
    while i < dir.len()
        invariant
            i <= dir.len(),
            keep == (|e: DirItemView| e.name != name@),
            listing(out@) == listing(dir@).take(i as int).filter(keep),
        decreases dir.len() - i,
    {
        let item = &dir[i];
        proof {
            let l = listing(dir@);
            assert(l.take(i + 1).drop_last() =~= l.take(i as int));
            assert(l.take(i + 1).last() == item@);
            reveal(Seq::filter);
        }
        if !bytes_eq(&item.name, name) {
            let copy = DirItem { ino: item.ino, name: copy_bytes(&item.name), typ: item.typ };
            proof {
                assert(listing(out@.push(copy)) =~= listing(out@).push(copy@));
            }
            out.push(copy);
        }
        i += 1;
    }
    assert(listing(dir@).take(dir.len() as int) =~= listing(dir@));
    out
}

} // verus!
