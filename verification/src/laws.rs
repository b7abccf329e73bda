//! What holds of the operations taken together.
use vstd::prelude::*;
use crate::error::FsError;
use crate::inode::{FileKind, InodeView, Timestamp};
use crate::mode::kind_of_mode;
use crate::model::{
    attach, clear_data, counter_fits, get_index, link, make_inode, mkdir, next_inode, read_data,
    read_dir, read_inode, read_meta, remove_index, remove_inode, rmdir, save_inode, save_meta,
    strike, unlink,
};
use crate::dir::{decode_spec, lemma_decode_encode, without_name, DirItemView};
use crate::store::{KeyView, State};

verus! {

/// The inode number that the next allocation in state `s` hands out,
/// where the metadata record can be read.
pub open spec fn counter(s: State) -> u64 {
    match read_meta(s) {
        Ok(m) => next_inode(m),
        Err(_) => 0,
    }
}

/// Making a node hands out the counter's number and advances the
/// counter by one; it advances also where the name is taken.
pub proof fn lemma_make_inode_number(
    s: State,
    parent: u64,
    name: Seq<u8>,
    mode: u32,
    gid: u32,
    uid: u32,
    now: Timestamp,
)
    requires
        counter_fits(s),
        read_meta(s) is Ok,
    ensures
        counter(make_inode(s, parent, name, mode, gid, uid, now).0) == counter(s) + 1,
        make_inode(s, parent, name, mode, gid, uid, now).1 matches Ok(i) ==> i.file_attr.ino
            == counter(s),
{
}

/// Of two nodes made one after the other, the second has the larger
/// inode number.
pub proof fn lemma_make_inode_increasing(
    s: State,
    parent1: u64,
    name1: Seq<u8>,
    mode1: u32,
    parent2: u64,
    name2: Seq<u8>,
    mode2: u32,
    gid: u32,
    uid: u32,
    now: Timestamp,
)
    requires
        counter_fits(s),
        counter_fits(make_inode(s, parent1, name1, mode1, gid, uid, now).0),
    ensures
        ({
            let first = make_inode(s, parent1, name1, mode1, gid, uid, now);
            let second = make_inode(first.0, parent2, name2, mode2, gid, uid, now);
            first.1 is Ok && second.1 is Ok ==> first.1->Ok_0.file_attr.ino
                < second.1->Ok_0.file_attr.ino
        }),
{
    let first = make_inode(s, parent1, name1, mode1, gid, uid, now);
    if first.1 is Ok {
        lemma_make_inode_number(s, parent1, name1, mode1, gid, uid, now);
        lemma_make_inode_number(first.0, parent2, name2, mode2, gid, uid, now);
    }
}

/// Linking, unlinking and removing a directory leave the inode counter
/// as it is.
pub proof fn lemma_tree_keeps_counter(s: State, ino: u64, parent: u64, name: Seq<u8>, now: Timestamp)
    ensures
        read_meta(unlink(s, parent, name, now).0) == read_meta(s),
        read_meta(rmdir(s, parent, name, now).0) == read_meta(s),
        read_meta(link(s, ino, parent, name, now).0) == read_meta(s),
{
}

/// An inode record can be read back after it was persisted exactly if
/// it has a link: one without links is gone.
pub proof fn lemma_tombstone(s: State, i: InodeView)
    ensures
        i.file_attr.nlink > 0 ==> read_inode(save_inode(s, i), i.file_attr.ino) == Ok::<
            InodeView,
            FsError,
        >(i),
        i.file_attr.nlink == 0 ==> read_inode(save_inode(s, i), i.file_attr.ino) == Err::<
            InodeView,
            FsError,
        >(FsError::InodeMissing { inode: i.file_attr.ino }),
{
}

/// Unlinking the only name of a file removes its inode record.
pub proof fn lemma_unlink_last_link(s: State, parent: u64, name: Seq<u8>, now: Timestamp)
    requires
        unlink(s, parent, name, now).1 is Ok,
        get_index(s, parent, name) matches Ok(Some(ino)) && ino != parent && (read_inode(s, ino)
            matches Ok(i) && i.file_attr.nlink == 1),
    ensures
        read_inode(unlink(s, parent, name, now).0, get_index(s, parent, name)->Ok_0->0) == Err::<
            InodeView,
            FsError,
        >(FsError::InodeMissing { inode: get_index(s, parent, name)->Ok_0->0 }),
{
}

/// Unlinking one of several names of a file leaves its inode record
/// with one link fewer.
pub proof fn lemma_unlink_drops_one_link(s: State, parent: u64, name: Seq<u8>, now: Timestamp)
    requires
        unlink(s, parent, name, now).1 is Ok,
        get_index(s, parent, name) matches Ok(Some(ino)) && ino != parent && (read_inode(s, ino)
            matches Ok(i) && i.file_attr.nlink > 1),
    ensures
        ({
            let ino = get_index(s, parent, name)->Ok_0->0;
            read_inode(unlink(s, parent, name, now).0, ino) matches Ok(after) && after.file_attr.nlink
                == read_inode(s, ino)->Ok_0.file_attr.nlink - 1
        }),
{
}

/// Whether a listing has an entry called `name`.
pub open spec fn listed(l: Seq<DirItemView>, name: Seq<u8>) -> bool {
    exists|i: int| 0 <= i < l.len() && (#[trigger] l[i]).name == name
}

/// A directory that lists an entry cannot be removed, and the state
/// stays as it is.
pub proof fn lemma_rmdir_guard(s: State, parent: u64, name: Seq<u8>, now: Timestamp)
    requires
        get_index(s, parent, name) matches Ok(Some(ino)) && (read_dir(s, ino) matches Ok(l) && l.len()
            > 0),
    ensures
        rmdir(s, parent, name, now) == (s, Err::<(), FsError>(FsError::DirectoryNotEmpty)),
{
}

/// After a file was emptied, every read of it returns no bytes, and its
/// size is zero.
pub proof fn lemma_clear_then_read(
    s: State,
    ino: u64,
    start: u64,
    chunk_size: Option<u64>,
    now: Timestamp,
    later: Timestamp,
)
    requires
        clear_data(s, ino, now).1 is Ok,
    ensures
        read_inode(clear_data(s, ino, now).0, ino) matches Ok(i) && i.file_attr.size == 0,
        read_data(clear_data(s, ino, now).0, ino, start, chunk_size, later).1 == Ok::<
            Seq<u8>,
            FsError,
        >(Seq::empty()),
{
}

/// Linking onto a name that resolves to another file, not a directory,
/// takes one link from that file, which is gone if it was its last, and
/// makes the name resolve to the linked inode.
pub proof fn lemma_link_redirects(s: State, ino: u64, parent: u64, name: Seq<u8>, now: Timestamp)
    requires
        link(s, ino, parent, name, now).1 is Ok,
        get_index(s, parent, name) matches Ok(Some(old)) && old != ino && old != parent && (
        read_inode(s, old) matches Ok(o) && o.file_attr.kind != FileKind::Directory),
    ensures
        ({
            let old = get_index(s, parent, name)->Ok_0->0;
            let before = read_inode(s, old)->Ok_0.file_attr.nlink;
            let after = link(s, ino, parent, name, now).0;
            &&& get_index(after, parent, name) == Ok::<Option<u64>, FsError>(Some(ino))
            &&& before == 1 ==> read_inode(after, old) == Err::<InodeView, FsError>(
                FsError::InodeMissing { inode: old },
            )
            &&& before > 1 ==> (read_inode(after, old) matches Ok(o) && o.file_attr.nlink == before
                - 1)
        }),
{
}

/// Linking onto a name that resolves to another, empty directory
/// removes that directory's inode record.
pub proof fn lemma_link_replaces_directory(
    s: State,
    ino: u64,
    parent: u64,
    name: Seq<u8>,
    now: Timestamp,
)
    requires
        link(s, ino, parent, name, now).1 is Ok,
        get_index(s, parent, name) matches Ok(Some(old)) && old != ino && old != parent && (
        read_inode(s, old) matches Ok(o) && o.file_attr.kind == FileKind::Directory),
    ensures
        ({
            let old = get_index(s, parent, name)->Ok_0->0;
            let after = link(s, ino, parent, name, now).0;
            &&& get_index(after, parent, name) == Ok::<Option<u64>, FsError>(Some(ino))
            &&& read_inode(after, old) == Err::<InodeView, FsError>(
                FsError::InodeMissing { inode: old },
            )
        }),
{
}

/// In every directory whose listing the transaction can read, a name
/// that it knows the index slot of has an index entry exactly if the
/// listing has an entry of that name.
pub open spec fn names_agree(s: State) -> bool {
    forall|d: u64, name: Seq<u8>|
        (read_dir(s, d) is Ok && #[trigger] s.dom().contains(KeyView::Index(d, name))) ==> (s[
            KeyView::Index(d, name)
        ] is Some <==> listed(read_dir(s, d)->Ok_0, name))
}

/// Every name of a listing that was read from bytes has a length that
/// a stored listing can hold.
pub proof fn lemma_decoded_names_fit(b: Seq<u8>)
    requires
        decode_spec(b) is Some,
    ensures
        forall|i: int|
            0 <= i < decode_spec(b)->0.len() ==> (#[trigger] decode_spec(b)->0[i]).name.len()
                <= u64::MAX,
    decreases b.len(),
{
    if b.len() >= 17 {
        let n = vstd::bytes::spec_u64_from_le_bytes(b.subrange(9, 17));
        let rest = b.subrange(17 + n, b.len() as int);
        lemma_decoded_names_fit(rest);
        let l = decode_spec(b)->0;
        assert forall|i: int| 0 <= i < l.len() implies (#[trigger] l[i]).name.len() <= u64::MAX by {
            if i > 0 {
                assert(l[i] == decode_spec(rest)->0[i - 1]);
            }
        }
    }
}

/// A listing with one more entry lists the names it listed, and the
/// name of that entry.
pub proof fn lemma_listed_push(l: Seq<DirItemView>, e: DirItemView, name: Seq<u8>)
    ensures
        listed(l.push(e), name) == (listed(l, name) || e.name == name),
{
    let l2 = l.push(e);
    if listed(l, name) {
        let i = choose|i: int| 0 <= i < l.len() && (#[trigger] l[i]).name == name;
        assert(l2[i].name == name);
    }
    if e.name == name {
        assert(l2[l.len() as int].name == name);
    }
    if listed(l2, name) {
        let i = choose|i: int| 0 <= i < l2.len() && (#[trigger] l2[i]).name == name;
        if i < l.len() {
            assert(l[i].name == name);
        }
    }
}

/// A listing without the entries called `gone` lists the other names
/// that it listed, and not `gone`.
pub proof fn lemma_listed_without(l: Seq<DirItemView>, gone: Seq<u8>, name: Seq<u8>)
    ensures
        listed(without_name(l, gone), name) == (listed(l, name) && name != gone),
    decreases l.len(),
{
    reveal(Seq::filter);
    let keep = |e: DirItemView| e.name != gone;
    if l.len() == 0 {
        assert(without_name(l, gone).len() == 0);
    } else {
        let front = l.drop_last();
        lemma_listed_without(front, gone, name);
        assert(without_name(front, gone) == front.filter(keep));
        assert(l =~= front.push(l.last()));
        lemma_listed_push(front, l.last(), name);
        if l.last().name != gone {
            assert(without_name(l, gone) == without_name(front, gone).push(l.last()));
            lemma_listed_push(without_name(front, gone), l.last(), name);
        } else {
            assert(without_name(l, gone) == without_name(front, gone));
        }
    }
}

/// Entering a name in a directory keeps index and listings in agreement.
pub proof fn lemma_attach_keeps_agreement(
    s: State,
    parent: u64,
    name: Seq<u8>,
    ino: u64,
    kind: FileKind,
    now: Timestamp,
)
    requires
        names_agree(s),
        name.len() <= u64::MAX,
        attach(s, parent, name, ino, kind, now).1 is Ok,
    ensures
        names_agree(attach(s, parent, name, ino, kind, now).0),
{
    let after = attach(s, parent, name, ino, kind, now).0;
    let old_list = read_dir(s, parent)->Ok_0;
    let e = DirItemView { ino: ino, name: name, typ: kind };
    let new_list = old_list.push(e);
    lemma_decoded_names_fit(s[KeyView::Dir(parent)]->0->Bytes_0);
    lemma_decode_encode(new_list);
    assert(read_dir(after, parent) == Ok::<Seq<DirItemView>, FsError>(new_list));
    assert forall|d: u64, n: Seq<u8>|
        (read_dir(after, d) is Ok && #[trigger] after.dom().contains(
            KeyView::Index(d, n),
        )) implies (after[KeyView::Index(d, n)] is Some <==> listed(read_dir(after, d)->Ok_0, n)) by {
        if d == parent {
            lemma_listed_push(old_list, e, n);
            if n != name {
                assert(s.dom().contains(KeyView::Index(d, n)));
            }
        } else {
            assert(read_dir(after, d) == read_dir(s, d));
            assert(s.dom().contains(KeyView::Index(d, n)));
        }
    }
}

/// Taking a name out of the index and striking it from the listing
/// keeps index and listings in agreement.
pub proof fn lemma_strike_keeps_agreement(s: State, parent: u64, name: Seq<u8>, now: Timestamp)
    requires
        names_agree(s),
        strike(remove_index(s, parent, name), parent, name, now).1 is Ok,
    ensures
        names_agree(strike(remove_index(s, parent, name), parent, name, now).0),
{
    let after = strike(remove_index(s, parent, name), parent, name, now).0;
    let old_list = read_dir(s, parent)->Ok_0;
    let new_list = without_name(old_list, name);
    lemma_decoded_names_fit(s[KeyView::Dir(parent)]->0->Bytes_0);
    assert forall|i: int| 0 <= i < new_list.len() implies (#[trigger] new_list[i]).name.len()
        <= u64::MAX by {
        let keep = |e: DirItemView| e.name != name;
        assert(new_list.contains(new_list[i]));
        old_list.lemma_filter_contains_rev(keep, new_list[i]);
        assert(old_list.contains(new_list[i]));
    }
    lemma_decode_encode(new_list);
    assert(read_dir(after, parent) == Ok::<Seq<DirItemView>, FsError>(new_list));
    assert forall|d: u64, n: Seq<u8>|
        (read_dir(after, d) is Ok && #[trigger] after.dom().contains(
            KeyView::Index(d, n),
        )) implies (after[KeyView::Index(d, n)] is Some <==> listed(read_dir(after, d)->Ok_0, n)) by {
        if d == parent {
            lemma_listed_without(old_list, name, n);
            if n != name {
                assert(s.dom().contains(KeyView::Index(d, n)));
            }
        } else {
            assert(read_dir(after, d) == read_dir(s, d));
            assert(s.dom().contains(KeyView::Index(d, n)));
        }
    }
}

/// After a name was unlinked or its directory removed, the index has
/// no entry for it and the parent's listing is the old one without the
/// entries of that name.
pub proof fn lemma_removed_name_is_gone(s: State, parent: u64, name: Seq<u8>, now: Timestamp)
    ensures
        unlink(s, parent, name, now).1 is Ok ==> {
            let after = unlink(s, parent, name, now).0;
            &&& get_index(after, parent, name) == Ok::<Option<u64>, FsError>(None)
            &&& read_dir(after, parent) == Ok::<Seq<DirItemView>, FsError>(
                without_name(read_dir(s, parent)->Ok_0, name),
            )
            &&& !listed(read_dir(after, parent)->Ok_0, name)
        },
        rmdir(s, parent, name, now).1 is Ok ==> {
            let after = rmdir(s, parent, name, now).0;
            &&& get_index(after, parent, name) == Ok::<Option<u64>, FsError>(None)
            &&& read_dir(after, parent) == Ok::<Seq<DirItemView>, FsError>(
                without_name(read_dir(s, parent)->Ok_0, name),
            )
            &&& !listed(read_dir(after, parent)->Ok_0, name)
        },
{
    if unlink(s, parent, name, now).1 is Ok || rmdir(s, parent, name, now).1 is Ok {
        let old_list = read_dir(s, parent)->Ok_0;
        let new_list = without_name(old_list, name);
        lemma_decoded_names_fit(s[KeyView::Dir(parent)]->0->Bytes_0);
        assert forall|i: int| 0 <= i < new_list.len() implies (#[trigger] new_list[i]).name.len()
            <= u64::MAX by {
            let keep = |e: DirItemView| e.name != name;
            assert(new_list.contains(new_list[i]));
            old_list.lemma_filter_contains_rev(keep, new_list[i]);
            assert(old_list.contains(new_list[i]));
        }
        lemma_decode_encode(new_list);
        lemma_listed_without(old_list, name, name);
    }
}

/// Writing a record that is neither a listing nor an index entry keeps
/// index and listings in agreement.
pub proof fn lemma_frame_keeps_agreement(s: State, k: KeyView, v: Option<crate::store::RecordView>)
    requires
        names_agree(s),
        k is Meta || k is Inode || k is Block,
    ensures
        names_agree(s.insert(k, v)),
{
    let after = s.insert(k, v);
    assert forall|d: u64, n: Seq<u8>|
        (read_dir(after, d) is Ok && #[trigger] after.dom().contains(
            KeyView::Index(d, n),
        )) implies (after[KeyView::Index(d, n)] is Some <==> listed(read_dir(after, d)->Ok_0, n)) by {
        assert(read_dir(after, d) == read_dir(s, d));
        assert(s.dom().contains(KeyView::Index(d, n)));
    }
}

/// Making a node keeps index and listings in agreement.
pub proof fn lemma_make_inode_keeps_agreement(
    s: State,
    parent: u64,
    name: Seq<u8>,
    mode: u32,
    gid: u32,
    uid: u32,
    now: Timestamp,
)
    requires
        names_agree(s),
        name.len() <= u64::MAX,
        make_inode(s, parent, name, mode, gid, uid, now).1 is Ok,
    ensures
        names_agree(make_inode(s, parent, name, mode, gid, uid, now).0),
{
    let ino = next_inode(read_meta(s)->Ok_0);
    let meta = crate::store::Meta { inode_next: (ino + 1) as u64 };
    let s1 = save_meta(s, meta);
    lemma_frame_keeps_agreement(s, KeyView::Meta, Some(crate::store::RecordView::Meta(meta)));
    let kind = kind_of_mode(mode)->0;
    let made = make_inode(s, parent, name, mode, gid, uid, now);
    let inode = made.1->Ok_0;
    if parent >= crate::layout::ROOT_INODE {
        lemma_attach_keeps_agreement(s1, parent, name, ino, kind, now);
        lemma_frame_keeps_agreement(
            attach(s1, parent, name, ino, kind, now).0,
            KeyView::Inode(ino),
            Some(crate::store::RecordView::Inode(inode)),
        );
    } else {
        lemma_frame_keeps_agreement(
            s1,
            KeyView::Inode(ino),
            Some(crate::store::RecordView::Inode(inode)),
        );
    }
}

/// Unlinking a name keeps index and listings in agreement.
pub proof fn lemma_unlink_keeps_agreement(s: State, parent: u64, name: Seq<u8>, now: Timestamp)
    requires
        names_agree(s),
        unlink(s, parent, name, now).1 is Ok,
    ensures
        names_agree(unlink(s, parent, name, now).0),
{
    let ino = get_index(s, parent, name)->Ok_0->0;
    let struck = strike(remove_index(s, parent, name), parent, name, now);
    lemma_strike_keeps_agreement(s, parent, name, now);
    let i = crate::model::dropped(read_inode(struck.0, ino)->Ok_0, now);
    if i.file_attr.nlink == 0 {
        lemma_frame_keeps_agreement(struck.0, KeyView::Inode(ino), None);
    } else {
        lemma_frame_keeps_agreement(
            struck.0,
            KeyView::Inode(ino),
            Some(crate::store::RecordView::Inode(i)),
        );
    }
}

/// Removing a directory keeps index and listings in agreement.
pub proof fn lemma_rmdir_keeps_agreement(s: State, parent: u64, name: Seq<u8>, now: Timestamp)
    requires
        names_agree(s),
        rmdir(s, parent, name, now).1 is Ok,
    ensures
        names_agree(rmdir(s, parent, name, now).0),
{
    let ino = get_index(s, parent, name)->Ok_0->0;
    let s0 = remove_inode(s, ino);
    lemma_frame_keeps_agreement(s, KeyView::Inode(ino), None);
    assert(remove_index(s0, parent, name) =~= remove_inode(remove_index(s, parent, name), ino));
    lemma_strike_keeps_agreement(s0, parent, name, now);
}

/// Linking a name keeps index and listings in agreement.
pub proof fn lemma_link_keeps_agreement(s: State, ino: u64, parent: u64, name: Seq<u8>, now: Timestamp)
    requires
        names_agree(s),
        name.len() <= u64::MAX,
        link(s, ino, parent, name, now).1 is Ok,
    ensures
        names_agree(link(s, ino, parent, name, now).0),
{
    let found = get_index(s, parent, name)->Ok_0;
    let cleared = match found {
        Some(old_ino) => crate::model::displace(s, parent, name, old_ino, now),
        None => (s, Ok(())),
    };
    if found is Some {
        if read_inode(s, found->0)->Ok_0.file_attr.kind == FileKind::Directory {
            lemma_rmdir_keeps_agreement(s, parent, name, now);
        } else {
            lemma_unlink_keeps_agreement(s, parent, name, now);
        }
    }
    let s1 = crate::model::set_index(cleared.0, parent, name, ino);
    let inode = read_inode(s1, ino)->Ok_0;
    let entered = attach(cleared.0, parent, name, ino, inode.file_attr.kind, now);
    lemma_attach_keeps_agreement(cleared.0, parent, name, ino, inode.file_attr.kind, now);
    lemma_frame_keeps_agreement(
        entered.0,
        KeyView::Inode(ino),
        Some(crate::store::RecordView::Inode(crate::model::raised(inode))),
    );
}

/// Making a directory keeps index and listings in agreement, where no
/// name is indexed under the number that the new directory gets.
pub proof fn lemma_mkdir_keeps_agreement(
    s: State,
    parent: u64,
    name: Seq<u8>,
    mode: u32,
    gid: u32,
    uid: u32,
    now: Timestamp,
)
    requires
        names_agree(s),
        name.len() <= u64::MAX,
        mkdir(s, parent, name, mode, gid, uid, now).1 is Ok,
        parent != counter(s),
        forall|n: Seq<u8>| #[trigger]
            s.dom().contains(KeyView::Index(counter(s), n)) ==> s[KeyView::Index(counter(s), n)]
                is None,
    ensures
        names_agree(mkdir(s, parent, name, mode, gid, uid, now).0),
{
    let dmode = crate::model::dir_mode(mode);
    let made = make_inode(s, parent, name, dmode, gid, uid, now);
    lemma_make_inode_keeps_agreement(s, parent, name, dmode, gid, uid, now);
    let ino = counter(s);
    assert(made.1->Ok_0.file_attr.ino == ino);
    let after = mkdir(s, parent, name, mode, gid, uid, now).0;
    let none = Seq::<DirItemView>::empty();
    lemma_decode_encode(none);
    assert(read_dir(after, ino) == Ok::<Seq<DirItemView>, FsError>(none));
    assert forall|d: u64, n: Seq<u8>|
        (read_dir(after, d) is Ok && #[trigger] after.dom().contains(
            KeyView::Index(d, n),
        )) implies (after[KeyView::Index(d, n)] is Some <==> listed(read_dir(after, d)->Ok_0, n)) by {
        assert(made.0.dom().contains(KeyView::Index(d, n)));
        if d == ino {
            assert(s.dom().contains(KeyView::Index(d, n)));
        } else {
            assert(read_dir(after, d) == read_dir(made.0, d));
        }
    }
}

/// Every inode record that the transaction knows has a link.
pub open spec fn all_linked(s: State) -> bool {
    forall|ino: u64| #[trigger]
        s.dom().contains(KeyView::Inode(ino)) ==> (s[KeyView::Inode(ino)] matches Some(
            crate::store::RecordView::Inode(i),
        ) ==> i.file_attr.nlink > 0)
}

/// Persisting an inode record, removing one, and writing any record
/// that is no inode record leave no inode record without a link behind.
pub proof fn lemma_writes_keep_linked(
    s: State,
    i: InodeView,
    k: KeyView,
    v: Option<crate::store::RecordView>,
)
    requires
        all_linked(s),
    ensures
        all_linked(save_inode(s, i)),
        !(k is Inode) || v is None ==> all_linked(s.insert(k, v)),
{
    let a = save_inode(s, i);
    assert forall|n: u64| #[trigger] a.dom().contains(KeyView::Inode(n)) implies (a[KeyView::Inode(
        n,
    )] matches Some(crate::store::RecordView::Inode(r)) ==> r.file_attr.nlink > 0) by {
        if n != i.file_attr.ino {
            assert(s.dom().contains(KeyView::Inode(n)));
        }
    }
    if !(k is Inode) || v is None {
        let b = s.insert(k, v);
        assert forall|n: u64| #[trigger] b.dom().contains(KeyView::Inode(n)) implies (b[KeyView::Inode(
            n,
        )] matches Some(crate::store::RecordView::Inode(r)) ==> r.file_attr.nlink > 0) by {
            if KeyView::Inode(n) != k {
                assert(s.dom().contains(KeyView::Inode(n)));
            }
        }
    }
}

/// Writing a listing leaves no inode record without a link behind.
pub proof fn lemma_save_dir_keeps_linked(s: State, ino: u64, dir: Seq<DirItemView>, now: Timestamp)
    requires
        all_linked(s),
    ensures
        all_linked(crate::model::save_dir(s, ino, dir, now).0),
{
    if read_inode(s, ino) is Ok {
        let attr = read_inode(s, ino)->Ok_0;
        let data = crate::dir::encode_spec(dir);
        let saved = crate::model::touched(attr.with_size(data.len() as u64), now);
        lemma_writes_keep_linked(s, saved, KeyView::Meta, None);
        lemma_writes_keep_linked(
            save_inode(s, saved),
            saved,
            KeyView::Dir(ino),
            Some(crate::store::RecordView::Bytes(data)),
        );
    }
}

/// Entering a name, and striking one, leave no inode record without a
/// link behind.
pub proof fn lemma_listing_keeps_linked(
    s: State,
    parent: u64,
    name: Seq<u8>,
    ino: u64,
    kind: FileKind,
    now: Timestamp,
)
    requires
        all_linked(s),
    ensures
        all_linked(attach(s, parent, name, ino, kind, now).0),
        all_linked(strike(s, parent, name, now).0),
{
    let s1 = crate::model::set_index(s, parent, name, ino);
    lemma_writes_keep_linked(
        s,
        arbitrary(),
        KeyView::Index(parent, name),
        Some(crate::store::RecordView::Index(ino)),
    );
    if read_dir(s1, parent) is Ok {
        let d = read_dir(s1, parent)->Ok_0;
        lemma_save_dir_keeps_linked(
            s1,
            parent,
            d.push(DirItemView { ino: ino, name: name, typ: kind }),
            now,
        );
    }
    if read_dir(s, parent) is Ok {
        lemma_save_dir_keeps_linked(s, parent, without_name(read_dir(s, parent)->Ok_0, name), now);
    }
}

/// Making a node or a directory leaves no inode record without a link
/// behind, whether it succeeds or fails.
pub proof fn lemma_make_keeps_linked(
    s: State,
    parent: u64,
    name: Seq<u8>,
    mode: u32,
    gid: u32,
    uid: u32,
    now: Timestamp,
)
    requires
        all_linked(s),
    ensures
        all_linked(make_inode(s, parent, name, mode, gid, uid, now).0),
        all_linked(mkdir(s, parent, name, mode, gid, uid, now).0),
{
    lemma_make_inode_keeps_linked(s, parent, name, mode, gid, uid, now);
    let dmode = crate::model::dir_mode(mode);
    lemma_make_inode_keeps_linked(s, parent, name, dmode, gid, uid, now);
    let made = make_inode(s, parent, name, dmode, gid, uid, now);
    if made.1 is Ok {
        lemma_save_dir_keeps_linked(made.0, made.1->Ok_0.file_attr.ino, Seq::empty(), now);
    }
}

/// Making a node leaves no inode record without a link behind.
pub proof fn lemma_make_inode_keeps_linked(
    s: State,
    parent: u64,
    name: Seq<u8>,
    mode: u32,
    gid: u32,
    uid: u32,
    now: Timestamp,
)
    requires
        all_linked(s),
    ensures
        all_linked(make_inode(s, parent, name, mode, gid, uid, now).0),
{
    if read_meta(s) is Ok {
        let ino = next_inode(read_meta(s)->Ok_0);
        let meta = crate::store::Meta { inode_next: (ino + 1) as u64 };
        let s1 = save_meta(s, meta);
        lemma_writes_keep_linked(
            s,
            arbitrary(),
            KeyView::Meta,
            Some(crate::store::RecordView::Meta(meta)),
        );
        let kind = kind_of_mode(mode)->0;
        lemma_listing_keeps_linked(s1, parent, name, ino, kind, now);
        let inode = crate::model::fresh_inode(
            ino,
            kind,
            crate::mode::perm_of_mode(mode),
            gid,
            uid,
            now,
        );
        lemma_writes_keep_linked(s1, inode, KeyView::Meta, None);
        lemma_writes_keep_linked(
            attach(s1, parent, name, ino, kind, now).0,
            inode,
            KeyView::Meta,
            None,
        );
    }
}

/// Unlinking a name or removing a directory leaves no inode record
/// without a link behind, whether it succeeds or fails.
pub proof fn lemma_remove_keeps_linked(s: State, parent: u64, name: Seq<u8>, now: Timestamp)
    requires
        all_linked(s),
    ensures
        all_linked(unlink(s, parent, name, now).0),
        all_linked(rmdir(s, parent, name, now).0),
{
    if get_index(s, parent, name) matches Ok(Some(_)) {
        let ino = get_index(s, parent, name)->Ok_0->0;
        let s1 = remove_index(s, parent, name);
        lemma_writes_keep_linked(s, arbitrary(), KeyView::Index(parent, name), None);
        lemma_listing_keeps_linked(s1, parent, name, 0, FileKind::RegularFile, now);
        let struck = strike(s1, parent, name, now);
        if read_inode(struck.0, ino) is Ok {
            lemma_writes_keep_linked(
                struck.0,
                crate::model::dropped(read_inode(struck.0, ino)->Ok_0, now),
                KeyView::Meta,
                None,
            );
        }
        let s2 = remove_inode(s1, ino);
        lemma_writes_keep_linked(s1, arbitrary(), KeyView::Inode(ino), None);
        lemma_listing_keeps_linked(s2, parent, name, 0, FileKind::RegularFile, now);
    }
}

/// Linking a name leaves no inode record without a link behind,
/// whether it succeeds or fails.
pub proof fn lemma_link_keeps_linked(s: State, ino: u64, parent: u64, name: Seq<u8>, now: Timestamp)
    requires
        all_linked(s),
        crate::model::link_fits(s, ino),
    ensures
        all_linked(link(s, ino, parent, name, now).0),
{
    if get_index(s, parent, name) is Ok {
        let found = get_index(s, parent, name)->Ok_0;
        lemma_remove_keeps_linked(s, parent, name, now);
        let cleared = match found {
            Some(old_ino) => crate::model::displace(s, parent, name, old_ino, now),
            None => (s, Ok(())),
        };
        if cleared.1 is Ok {
            let s1 = crate::model::set_index(cleared.0, parent, name, ino);
            if read_inode(s1, ino) is Ok {
                let inode = read_inode(s1, ino)->Ok_0;
                lemma_listing_keeps_linked(cleared.0, parent, name, ino, inode.file_attr.kind, now);
                let entered = attach(cleared.0, parent, name, ino, inode.file_attr.kind, now);
                assert(inode.file_attr.nlink < u32::MAX) by {
                    lemma_link_still_fits(s, ino, parent, name, now);
                }
                lemma_writes_keep_linked(entered.0, crate::model::raised(inode), KeyView::Meta, None);
            } else {
                lemma_writes_keep_linked(
                    cleared.0,
                    arbitrary(),
                    KeyView::Index(parent, name),
                    Some(crate::store::RecordView::Index(ino)),
                );
            }
        }
    }
}

/// An inode that can take one more link can still take it after a
/// name was unlinked or a directory removed.
pub proof fn lemma_link_still_fits(s: State, ino: u64, parent: u64, name: Seq<u8>, now: Timestamp)
    requires
        crate::model::link_fits(s, ino),
    ensures
        crate::model::link_fits(unlink(s, parent, name, now).0, ino),
        crate::model::link_fits(rmdir(s, parent, name, now).0, ino),
{
}

} // verus!
