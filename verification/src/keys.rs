//! The stored form of keys.
//!
//! A key is stored as one byte for its region and then its numbers,
//! eight bytes each with the most significant byte first, so that the
//! blocks of one inode lie together and in the order of their indices.
//! The name of an index entry follows its parent's number.
use vstd::prelude::*;
use vstd::bytes::{
    lemma_auto_spec_u64_to_from_le_bytes, spec_u64_from_le_bytes, spec_u64_to_le_bytes,
    spec_u64_to_le_bytes_to_open, u64_from_le_bytes, u64_to_le_bytes,
};
use crate::dir::append_bytes;
use crate::store::{Key, KeyView};

verus! {

pub const TAG_META: u8 = 0;
pub const TAG_INODE: u8 = 1;
pub const TAG_BLOCK: u8 = 2;
pub const TAG_DIR: u8 = 3;
pub const TAG_INDEX: u8 = 4;

/// Eight bytes in the opposite order.
pub open spec fn flip(s: Seq<u8>) -> Seq<u8> {
    Seq::new(8, |i: int| s[7 - i])
}

/// A number as eight bytes, the most significant first.
pub open spec fn be64(x: u64) -> Seq<u8> {
    flip(spec_u64_to_le_bytes(x))
}

/// The number that eight bytes stand for, the most significant first.
pub open spec fn from_be64(s: Seq<u8>) -> u64 {
    spec_u64_from_le_bytes(flip(s))
}

/// The stored form of a key.
pub open spec fn key_bytes(k: KeyView) -> Seq<u8> {
    match k {
        KeyView::Meta => seq![TAG_META],
        KeyView::Inode(i) => seq![TAG_INODE] + be64(i),
        KeyView::Block(i, b) => seq![TAG_BLOCK] + be64(i) + be64(b),
        KeyView::Dir(i) => seq![TAG_DIR] + be64(i),
        KeyView::Index(p, n) => seq![TAG_INDEX] + be64(p) + n,
    }
}

/// Eight bytes and the number they stand for determine each other.
pub proof fn lemma_be64_round_trip()
    ensures
        forall|x: u64| #![trigger be64(x)] be64(x).len() == 8 && from_be64(be64(x)) == x,
        forall|s: Seq<u8>| #![trigger from_be64(s)] s.len() == 8 ==> be64(from_be64(s)) == s,
{
    lemma_auto_spec_u64_to_from_le_bytes();
    assert forall|x: u64| #![trigger be64(x)] be64(x).len() == 8 && from_be64(be64(x)) == x by {
        assert(flip(be64(x)) =~= spec_u64_to_le_bytes(x));
    }
    assert forall|s: Seq<u8>| #![trigger from_be64(s)] s.len() == 8 implies be64(from_be64(s))
        == s by {
        assert(flip(s).len() == 8);
        assert(spec_u64_to_le_bytes(spec_u64_from_le_bytes(flip(s))) == flip(s));
        assert(flip(flip(s)) =~= s);
    }
}

/// Two keys with the same stored form are the same key.
pub proof fn lemma_key_bytes_injective(a: KeyView, b: KeyView)
    requires
        key_bytes(a) == key_bytes(b),
    ensures
        a == b,
{
    lemma_be64_round_trip();
    let x = key_bytes(a);
    let y = key_bytes(b);
    assert(x[0] == y[0]);
    assert(x.len() == y.len());
    match a {
        KeyView::Meta => {},
        KeyView::Inode(i) => {
            assert(x.subrange(1, 9) =~= be64(i));
            assert(y.subrange(1, 9) =~= be64(b->Inode_0));
        },
        KeyView::Dir(i) => {
            assert(x.subrange(1, 9) =~= be64(i));
            assert(y.subrange(1, 9) =~= be64(b->Dir_0));
        },
        KeyView::Block(i, n) => {
            assert(x.subrange(1, 9) =~= be64(i));
            assert(y.subrange(1, 9) =~= be64(b->Block_0));
            assert(x.subrange(9, 17) =~= be64(n));
            assert(y.subrange(9, 17) =~= be64(b->Block_1));
        },
        KeyView::Index(p, n) => {
            assert(x.subrange(1, 9) =~= be64(p));
            assert(y.subrange(1, 9) =~= be64(b->Index_0));
            assert(x.subrange(9, x.len() as int) =~= n);
            assert(y.subrange(9, y.len() as int) =~= b->Index_1);
        },
    }
}

/// `a` comes before `b` in the order of the store: they agree up to a
/// position at which `a` has the smaller byte.
pub open spec fn sorts_before(a: Seq<u8>, b: Seq<u8>) -> bool {
    exists|i: int|
        0 <= i < a.len() && i < b.len() && a.take(i) == b.take(i) && #[trigger] a[i] < b[i]
}

/// The blocks of an inode are stored in the order of their indices.
pub proof fn lemma_blocks_in_order(ino: u64, b1: u64, b2: u64)
    requires
        b1 < b2,
    ensures
        sorts_before(key_bytes(KeyView::Block(ino, b1)), key_bytes(KeyView::Block(ino, b2))),
{
    lemma_auto_spec_u64_to_from_le_bytes();
    spec_u64_to_le_bytes_to_open(b1);
    spec_u64_to_le_bytes_to_open(b2);
    let x = key_bytes(KeyView::Block(ino, b1));
    let y = key_bytes(KeyView::Block(ino, b2));
    let p = be64(b1);
    let q = be64(b2);
    assert(b1 < b2 ==> ((b1 >> 56) & 0xff) < ((b2 >> 56) & 0xff) || (((b1 >> 56) & 0xff) == ((b2
        >> 56) & 0xff) && (((b1 >> 48) & 0xff) < ((b2 >> 48) & 0xff) || (((b1 >> 48) & 0xff) == ((
    b2 >> 48) & 0xff) && (((b1 >> 40) & 0xff) < ((b2 >> 40) & 0xff) || (((b1 >> 40) & 0xff) == ((
    b2 >> 40) & 0xff) && (((b1 >> 32) & 0xff) < ((b2 >> 32) & 0xff) || (((b1 >> 32) & 0xff) == ((
    b2 >> 32) & 0xff) && (((b1 >> 24) & 0xff) < ((b2 >> 24) & 0xff) || (((b1 >> 24) & 0xff) == ((
    b2 >> 24) & 0xff) && (((b1 >> 16) & 0xff) < ((b2 >> 16) & 0xff) || (((b1 >> 16) & 0xff) == ((
    b2 >> 16) & 0xff) && (((b1 >> 8) & 0xff) < ((b2 >> 8) & 0xff) || (((b1 >> 8) & 0xff) == ((b2
        >> 8) & 0xff) && (b1 & 0xff) < (b2 & 0xff))))))))))))))) by (bit_vector);
    assert(forall|v: u64| #![trigger (v & 0xff)] (v & 0xff) < 256) by (bit_vector);
    let i = if p[0] < q[0] {
        0int
    } else if p[1] < q[1] {
        1int
    } else if p[2] < q[2] {
        2int
    } else if p[3] < q[3] {
        3int
    } else if p[4] < q[4] {
        4int
    } else if p[5] < q[5] {
        5int
    } else if p[6] < q[6] {
        6int
    } else {
        7int
    };
    assert(p[i] < q[i]);
    assert(p.take(i) =~= q.take(i));
    assert(x[9 + i] == p[i]);
    assert(y[9 + i] == q[i]);
    assert(x.take(9 + i) =~= seq![TAG_BLOCK] + be64(ino) + p.take(i));
    assert(y.take(9 + i) =~= seq![TAG_BLOCK] + be64(ino) + q.take(i));
    assert(x[9 + i] < y[9 + i]);
}

/// A number as eight bytes, the most significant first.
pub fn be_bytes(x: u64) -> (out: Vec<u8>)
    ensures
        out@ == be64(x),
{
    let le = u64_to_le_bytes(x);
    let mut out: Vec<u8> = Vec::new();
    let mut i: usize = 0;
    while i < 8
        invariant
            i <= 8,
            le@ == spec_u64_to_le_bytes(x),
            le@.len() == 8,
            out@.len() == i,
            forall|j: int| 0 <= j < i ==> out@[j] == le@[7 - j],
        decreases 8 - i,
    {
        out.push(le[7 - i]);
        i += 1;
    }
    assert(out@ =~= be64(x));
    out
}

/// The number that the eight bytes of `data` from `at` on stand for.
pub fn be_value(data: &Vec<u8>, at: usize) -> (x: u64)
    requires
        at + 8 <= data.len(),
    ensures
        x == from_be64(data@.subrange(at as int, at + 8)),
{
    let mut le: Vec<u8> = Vec::new();
    let mut i: usize = 0;
    while i < 8
        invariant
            i <= 8,
            at + 8 <= data.len(),
            le@.len() == i,
            forall|j: int| 0 <= j < i ==> le@[j] == data@[at + 7 - j],
        decreases 8 - i,
    {
        le.push(data[at + 7 - i]);
        i += 1;
    }
    assert(le@ =~= flip(data@.subrange(at as int, at + 8)));
    u64_from_le_bytes(le.as_slice())
}

/// The stored form of a key.
pub fn encode_key(key: &Key) -> (out: Vec<u8>)
    ensures
        out@ == key_bytes(key@),
{
    let mut out: Vec<u8> = Vec::new();
    match key {
        Key::Meta => {
            out.push(TAG_META);
        },
        Key::Inode(i) => {
            out.push(TAG_INODE);
            append_bytes(&mut out, &be_bytes(*i));
        },
        Key::Block(i, b) => {
            out.push(TAG_BLOCK);
            append_bytes(&mut out, &be_bytes(*i));
            append_bytes(&mut out, &be_bytes(*b));
        },
        Key::Dir(i) => {
            out.push(TAG_DIR);
            append_bytes(&mut out, &be_bytes(*i));
        },
        Key::Index(p, n) => {
            out.push(TAG_INDEX);
            append_bytes(&mut out, &be_bytes(*p));
            append_bytes(&mut out, n);
        },
    }
    assert(out@ =~= key_bytes(key@));
    out
}

/// The key that bytes are the stored form of; `None` where they are
/// the stored form of no key.
pub fn decode_key(data: &Vec<u8>) -> (r: Option<Key>)
    ensures
        r matches Some(k) ==> key_bytes(k@) == data@,
        r is None ==> forall|k: KeyView| key_bytes(k) != data@,
{
    proof {
        lemma_be64_round_trip();
    }
    let len = data.len();
    if len == 0 {
        return None;
    }
    let tag = data[0];
    if tag == TAG_META && len == 1 {
        assert(data@ =~= key_bytes(KeyView::Meta));
        Some(Key::Meta)
    } else if tag == TAG_INODE && len == 9 {
        let i = be_value(data, 1);
        assert(data@ =~= key_bytes(KeyView::Inode(i)));
        Some(Key::Inode(i))
    } else if tag == TAG_BLOCK && len == 17 {
        let i = be_value(data, 1);
        let b = be_value(data, 9);
        assert(data@ =~= key_bytes(KeyView::Block(i, b)));
        Some(Key::Block(i, b))
    } else if tag == TAG_DIR && len == 9 {
        let i = be_value(data, 1);
        assert(data@ =~= key_bytes(KeyView::Dir(i)));
        Some(Key::Dir(i))
    } else if tag == TAG_INDEX && len >= 9 {
        let p = be_value(data, 1);
        let n = crate::buffers::slice_bytes(data, 9, len - 9);
        assert(data@ =~= key_bytes(KeyView::Index(p, n@)));
        Some(Key::Index(p, n))
    } else {
        assert forall|k: KeyView| key_bytes(k) != data@ by {
            assert(key_bytes(k)[0] == match k {
                KeyView::Meta => TAG_META,
                KeyView::Inode(_) => TAG_INODE,
                KeyView::Block(_, _) => TAG_BLOCK,
                KeyView::Dir(_) => TAG_DIR,
                KeyView::Index(_, _) => TAG_INDEX,
            });
        }
        None
    }
}

} // verus!
