//! Error kinds reported by the transaction layer.
use vstd::prelude::*;

verus! {

/// Names one record of the store without carrying an entry name: an
/// index slot is named by its parent alone, the name being the one the
/// caller passed to the operation that asked for it.
#[derive(Clone, Copy, Debug, PartialEq, Eq, Structural)]
pub enum Slot {
    Meta,
    Inode(u64),
    Dir(u64),
    Index(u64),
    Block(u64, u64),
}

/// Why an operation stopped.
#[derive(Clone, Copy, Debug, PartialEq, Eq, Structural)]
pub enum FsError {
    /// The name is already present in the parent.
    AlreadyExists,
    /// The name is absent from the parent's index.
    NotFound,
    /// No inode record is stored under this number.
    InodeMissing { inode: u64 },
    /// The directory still lists entries.
    DirectoryNotEmpty,
    /// The directory listing of this inode is absent.
    MissingBlock { inode: u64, block: u64 },
    /// A stored record is not a valid record of the kind its key asks for.
    Corrupt,
    /// The underlying store reported a failure.
    StoreFailure,
    /// The transaction has not yet seen the record in this slot: the
    /// caller fetches it, hands it over with `Txn::supply`, and runs the
    /// operation again on the state it had before.
    NotLoaded { slot: Slot },
}

} // verus!
