//! The transaction's view of the store: what it has been handed from the
//! store and what it has staged, as a log of entries keyed by record.
use vstd::prelude::*;
use crate::error::{FsError, Slot};
use crate::inode::{copy_bytes, Inode, InodeView};

verus! {

/// The key of one record. The five regions never collide.
#[derive(Clone, Debug, PartialEq, Eq)]
pub enum Key {
    /// The filesystem's metadata record.
    Meta,
    /// The inode record of an inode number.
    Inode(u64),
    /// The listing of a directory inode.
    Dir(u64),
    /// The index entry of a name in a parent directory.
    Index(u64, Vec<u8>),
    /// One content block of an inode.
    Block(u64, u64),
}

pub enum KeyView {
    Meta,
    Inode(u64),
    Dir(u64),
    Index(u64, Seq<u8>),
    Block(u64, u64),
}

impl View for Key {
    type V = KeyView;

    open spec fn view(&self) -> KeyView {
        match *self {
            Key::Meta => KeyView::Meta,
            Key::Inode(i) => KeyView::Inode(i),
            Key::Dir(i) => KeyView::Dir(i),
            Key::Index(p, n) => KeyView::Index(p, n@),
            Key::Block(i, b) => KeyView::Block(i, b),
        }
    }
}

/// The slot that a key names.
pub open spec fn slot_of(k: KeyView) -> Slot {
    match k {
        KeyView::Meta => Slot::Meta,
        KeyView::Inode(i) => Slot::Inode(i),
        KeyView::Dir(i) => Slot::Dir(i),
        KeyView::Index(p, _) => Slot::Index(p),
        KeyView::Block(i, b) => Slot::Block(i, b),
    }
}

/// The metadata record: the next inode number to hand out.
#[derive(Clone, Copy, Debug, PartialEq, Eq, Structural)]
pub struct Meta {
    pub inode_next: u64,
}

/// A stored record.
#[derive(Clone, Debug, PartialEq, Eq)]
pub enum Record {
    Meta(Meta),
    Inode(Inode),
    /// An index entry: the inode number that a name resolves to.
    Index(u64),
    /// A directory listing in its stored form, or a content block.
    Bytes(Vec<u8>),
}

pub enum RecordView {
    Meta(Meta),
    Inode(InodeView),
    Index(u64),
    Bytes(Seq<u8>),
}

impl View for Record {
    type V = RecordView;

    open spec fn view(&self) -> RecordView {
        match *self {
            Record::Meta(m) => RecordView::Meta(m),
            Record::Inode(i) => RecordView::Inode(i@),
            Record::Index(i) => RecordView::Index(i),
            Record::Bytes(b) => RecordView::Bytes(b@),
        }
    }
}

/// What a transaction knows: for each key it has seen, the record under
/// it, or `None` where it knows that there is none.
pub type State = Map<KeyView, Option<RecordView>>;

pub open spec fn view_opt(v: Option<Record>) -> Option<RecordView> {
    match v {
        Some(r) => Some(r@),
        None => None,
    }
}

/// What reading key `k` gives in state `s`.
pub open spec fn state_get(s: State, k: KeyView) -> Result<Option<RecordView>, FsError> {
    if s.dom().contains(k) {
        Ok(s[k])
    } else {
        Err(FsError::NotLoaded { slot: slot_of(k) })
    }
}

/// One entry of the log. `staged` tells a write of this transaction from
/// a record handed over from the store.
#[derive(Clone, Debug, PartialEq, Eq)]
pub struct Entry {
    pub key: Key,
    pub value: Option<Record>,
    pub staged: bool,
}

/// The state that a log of entries describes: later entries win.
pub open spec fn replay(log: Seq<Entry>) -> State
    decreases log.len(),
{
    if log.len() == 0 {
        Map::empty()
    } else {
        replay(log.drop_last()).insert(log.last().key@, view_opt(log.last().value))
    }
}

/// A key that no entry from position `i` on carries has, in the whole
/// log, what it has in the first `i` entries.
pub proof fn lemma_replay_skip(log: Seq<Entry>, i: int, k: KeyView)
    requires
        0 <= i <= log.len(),
        forall|j: int| i <= j < log.len() ==> (#[trigger] log[j]).key@ != k,
    ensures
        replay(log).dom().contains(k) == replay(log.take(i)).dom().contains(k),
        replay(log).dom().contains(k) ==> replay(log)[k] == replay(log.take(i))[k],
    decreases log.len() - i,
{
    if i == log.len() {
        assert(log.take(i) =~= log);
    } else {
        lemma_replay_skip(log.drop_last(), i, k);
        assert(log.drop_last().take(i) =~= log.take(i));
    }
}

/// What a store holds under a key, or `None` where it holds nothing.
pub open spec fn stored(store: Map<KeyView, RecordView>, k: KeyView) -> Option<RecordView> {
    if store.dom().contains(k) {
        Some(store[k])
    } else {
        None
    }
}

/// The store after the staged entries of a log were applied to it in
/// order: a record is put, a `None` deletes.
pub open spec fn commit(log: Seq<Entry>, store: Map<KeyView, RecordView>) -> Map<
    KeyView,
    RecordView,
>
    decreases log.len(),
{
    if log.len() == 0 {
        store
    } else {
        let before = commit(log.drop_last(), store);
        let e = log.last();
        if !e.staged {
            before
        } else {
            match e.value {
                Some(r) => before.insert(e.key@, r@),
                None => before.remove(e.key@),
            }
        }
    }
}

/// Every entry that was handed over tells what `store` holds under its
/// key, and no earlier entry has that key.
pub open spec fn faithful(log: Seq<Entry>, store: Map<KeyView, RecordView>) -> bool {
    forall|i: int|
        0 <= i < log.len() && !(#[trigger] log[i]).staged ==> {
            &&& view_opt(log[i].value) == stored(store, log[i].key@)
            &&& forall|j: int| 0 <= j < i ==> (#[trigger] log[j]).key@ != log[i].key@
        }
}

/// No entry of the log has key `k`.
pub open spec fn untouched(log: Seq<Entry>, k: KeyView) -> bool {
    forall|j: int| 0 <= j < log.len() ==> (#[trigger] log[j]).key@ != k
}

/// A key that no entry of the log has is unknown to the transaction,
/// and the commit leaves it as the store has it.
pub proof fn lemma_untouched(log: Seq<Entry>, store: Map<KeyView, RecordView>, k: KeyView)
    requires
        untouched(log, k),
    ensures
        !replay(log).dom().contains(k),
        stored(commit(log, store), k) == stored(store, k),
    decreases log.len(),
{
    if log.len() > 0 {
        let front = log.drop_last();
        assert forall|j: int| 0 <= j < front.len() implies (#[trigger] front[j]).key@ != k by {
            assert(front[j] == log[j]);
        }
        lemma_untouched(front, store, k);
        assert(log.last() == log[log.len() - 1]);
    }
}

/// Where the transaction was handed what the store held, the store
/// holds after the commit, under every key that the transaction knows,
/// what the transaction says it holds.
pub proof fn lemma_commit_agrees(log: Seq<Entry>, store: Map<KeyView, RecordView>, k: KeyView)
    requires
        faithful(log, store),
        replay(log).dom().contains(k),
    ensures
        stored(commit(log, store), k) == replay(log)[k],
    decreases log.len(),
{
    if log.len() > 0 {
        let front = log.drop_last();
        let e = log.last();
        assert(e == log[log.len() - 1]);
        assert forall|i: int| 0 <= i < front.len() && !(#[trigger] front[i]).staged implies {
            &&& view_opt(front[i].value) == stored(store, front[i].key@)
            &&& forall|j: int| 0 <= j < i ==> (#[trigger] front[j]).key@ != front[i].key@
        } by {
            assert(front[i] == log[i]);
            assert forall|j: int| 0 <= j < i implies (#[trigger] front[j]).key@ != front[i].key@ by {
                assert(front[j] == log[j]);
            }
        }
        if e.key@ == k {
            if !e.staged {
                assert forall|j: int| 0 <= j < front.len() implies (#[trigger] front[j]).key@
                    != k by {
                    assert(front[j] == log[j]);
                }
                lemma_untouched(front, store, k);
            }
        } else {
            lemma_commit_agrees(front, store, k);
        }
    }
}

/// The transaction knows every key that an entry of its log has.
pub proof fn lemma_touched_is_known(log: Seq<Entry>, j: int)
    requires
        0 <= j < log.len(),
    ensures
        replay(log).dom().contains(log[j].key@),
    decreases log.len(),
{
    if j < log.len() - 1 {
        lemma_touched_is_known(log.drop_last(), j);
    }
}

/// A log stays faithful to the store when a write is staged, and when
/// what the store holds under a key that the transaction does not know
/// is handed over.
pub proof fn lemma_faithful_grows(log: Seq<Entry>, store: Map<KeyView, RecordView>, e: Entry)
    requires
        faithful(log, store),
        !e.staged ==> !replay(log).dom().contains(e.key@) && view_opt(e.value) == stored(
            store,
            e.key@,
        ),
    ensures
        faithful(log.push(e), store),
{
    let grown = log.push(e);
    assert forall|i: int| 0 <= i < grown.len() && !(#[trigger] grown[i]).staged implies {
        &&& view_opt(grown[i].value) == stored(store, grown[i].key@)
        &&& forall|j: int| 0 <= j < i ==> (#[trigger] grown[j]).key@ != grown[i].key@
    } by {
        if i < log.len() {
            assert(grown[i] == log[i]);
            assert forall|j: int| 0 <= j < i implies (#[trigger] grown[j]).key@
                != grown[i].key@ by {
                assert(grown[j] == log[j]);
            }
        } else {
            assert forall|j: int| 0 <= j < i implies (#[trigger] grown[j]).key@
                != grown[i].key@ by {
                assert(grown[j] == log[j]);
                lemma_touched_is_known(log, j);
            }
        }
    }
}

/// Whether two byte strings are equal.
pub fn bytes_eq(a: &Vec<u8>, b: &Vec<u8>) -> (r: bool)
    ensures
        r == (a@ == b@),
{
    if a.len() != b.len() {
        return false;
    }
    let mut i: usize = 0;
    while i < a.len()
        invariant
            i <= a.len(),
            a.len() == b.len(),
            forall|j: int| 0 <= j < i ==> a@[j] == b@[j],
        decreases a.len() - i,
    {
        if a[i] != b[i] {
            return false;
        }
        i += 1;
    }
    assert(a@ =~= b@);
    true
}

impl Key {
    /// Whether two keys name the same record.
    pub fn same(&self, other: &Key) -> (r: bool)
        ensures
            r == (self@ == other@),
    {
        match (self, other) {
            (Key::Meta, Key::Meta) => true,
            (Key::Inode(a), Key::Inode(b)) => *a == *b,
            (Key::Dir(a), Key::Dir(b)) => *a == *b,
            (Key::Index(p, n), Key::Index(q, m)) => *p == *q && bytes_eq(n, m),
            (Key::Block(a, x), Key::Block(b, y)) => *a == *b && *x == *y,
            _ => false,
        }
    }

    /// The key of a slot; an index slot takes `name` as its entry name.
    pub fn of_slot(slot: Slot, name: &Vec<u8>) -> (k: Key)
        ensures
            slot_of(k@) == slot,
            slot matches Slot::Index(p) ==> k@ == KeyView::Index(p, name@),
    {
        match slot {
            Slot::Meta => Key::Meta,
            Slot::Inode(i) => Key::Inode(i),
            Slot::Dir(i) => Key::Dir(i),
            Slot::Index(p) => Key::Index(p, copy_bytes(name)),
            Slot::Block(i, b) => Key::Block(i, b),
        }
    }

    /// The slot that this key names.
    pub fn slot(&self) -> (s: Slot)
        ensures
            s == slot_of(self@),
    {
        match self {
            Key::Meta => Slot::Meta,
            Key::Inode(i) => Slot::Inode(*i),
            Key::Dir(i) => Slot::Dir(*i),
            Key::Index(p, _) => Slot::Index(*p),
            Key::Block(i, b) => Slot::Block(*i, *b),
        }
    }
}

/// One optimistic transaction, as far as this layer has seen and changed
/// the store.
#[derive(Clone, Debug)]
pub struct Txn {
    pub log: Vec<Entry>,
}

impl View for Txn {
    type V = State;

    open spec fn view(&self) -> State {
        replay(self.log@)
    }
}

impl Txn {
    /// Begins a transaction that has seen nothing yet.
    pub fn begin_optimistic() -> (t: Txn)
        ensures
            t@ == Map::<KeyView, Option<RecordView>>::empty(),
            t.log@.len() == 0,
    {
        Txn { log: Vec::new() }
    }

    /// Reads the record under `key`.
    pub fn get(&self, key: &Key) -> (r: Result<Option<&Record>, FsError>)
        ensures
            r is Ok == self@.dom().contains(key@),
            r matches Ok(v) ==> match v {
                Some(rec) => self@[key@] == Some(rec@),
                None => self@[key@] is None,
            },
            r matches Err(e) ==> e == (FsError::NotLoaded { slot: slot_of(key@) }),
    {
        let mut i: usize = self.log.len();
        while i > 0
            invariant
                i <= self.log.len(),
                forall|j: int| i <= j < self.log.len() ==> (#[trigger] self.log@[j]).key@ != key@,
            decreases i,
        {
            i -= 1;
            if self.log[i].key.same(key) {
                proof {
                    lemma_replay_skip(self.log@, i + 1, key@);
                    assert(self.log@.take(i + 1).drop_last() =~= self.log@.take(i as int));
                }
                return Ok(self.log[i].value.as_ref());
            }
        }
        proof {
            lemma_replay_skip(self.log@, 0, key@);
        }
        Err(FsError::NotLoaded { slot: key.slot() })
    }

    /// Stages a write of `value` under `key`.
    pub fn put(&mut self, key: Key, value: Record)
        ensures
            final(self)@ == old(self)@.insert(key@, Some(value@)),
            final(self).log@ == old(self).log@.push(
                Entry { key: key, value: Some(value), staged: true },
            ),
    {
        let ghost before = self.log@;
        self.log.push(Entry { key, value: Some(value), staged: true });
        assert(self.log@.drop_last() =~= before);
    }

    /// Stages the removal of the record under `key`.
    pub fn delete(&mut self, key: Key)
        ensures
            final(self)@ == old(self)@.insert(key@, None),
            final(self).log@ == old(self).log@.push(Entry { key: key, value: None, staged: true }),
    {
        let ghost before = self.log@;
        self.log.push(Entry { key, value: None, staged: true });
        assert(self.log@.drop_last() =~= before);
    }

    /// Hands over what the store holds under `key`: a record, or `None`
    /// where it holds none. A key that the transaction already knows
    /// keeps what it has, and the result is `false`.
    pub fn supply(&mut self, key: Key, value: Option<Record>) -> (fresh: bool)
        ensures
            fresh == !old(self)@.dom().contains(key@),
            fresh ==> final(self)@ == old(self)@.insert(key@, view_opt(value)),
            fresh ==> final(self).log@ == old(self).log@.push(
                Entry { key: key, value: value, staged: false },
            ),
            !fresh ==> *final(self) == *old(self),
    {
        if self.get(&key).is_ok() {
            return false;
        }
        let ghost before = self.log@;
        self.log.push(Entry { key, value, staged: false });
        assert(self.log@.drop_last() =~= before);
        true
    }
}

} // verus!
