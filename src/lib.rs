//! A virtual filesystem: a uniform API for hierarchical file and directory
//! operations confined to a declared root, backed by memory or, through the
//! state kept here, by a host directory.
pub mod backend;
pub mod dir;
pub mod dir_fs;
pub mod entry;
pub mod map_fs;
pub mod namespace;
pub mod order;
pub mod path;
pub mod store;

pub use backend::FsBackend;
pub use dir::DirFs;
pub use dir_fs::DirFS;
pub use entry::{DirEntry, DirEntryType, Entry, EntryType, ErrorKind, VfsError};
pub use map_fs::MapFS;
pub use path::{is_virtual_root, normalize};
