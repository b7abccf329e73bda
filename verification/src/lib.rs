//! Transaction layer of a filesystem whose state lives in an ordered key-value store.
pub mod buffers;
pub mod content;
pub mod content_laws;
pub mod dir;
pub mod error;
pub mod inode;
pub mod keys;
pub mod laws;
pub mod layout;
pub mod mode;
pub mod model;
pub mod names;
pub mod records;
pub mod store;
pub mod tree;
