//! In-memory bookkeeping of an inode-based filesystem: inode and block
//! allocation, a flat root namespace, and permission bits, with the
//! invariants that keep them consistent proved by Verus.
pub mod error;
pub mod inode;
pub mod directory;
pub mod superblock;
pub mod filesystem;
