//! A read-only view of a content-addressed, commit-based repository — the
//! on-disk layout of a file-sync store — presented as a filesystem.
//!
//! A repository is three object stores (commits, fs-nodes, blocks) keyed by
//! 20-byte hashes.  The library selects a head commit, walks its fs-node
//! tree lazily with pruning, reassembles file bytes from ordered block
//! sequences, and dispatches inode and file-handle operations for a kernel
//! transport.  Disk and kernel I/O stay outside: the library reads an
//! in-memory image of the stores and answers with plain values.

pub mod blocks;
pub mod decode;
pub mod error;
pub mod fuse;
pub mod hash;
pub mod jsonio;
pub mod library;
pub mod node;
pub mod prefix;
pub mod stats;
pub mod store;
pub mod walker;
