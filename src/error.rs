use vstd::prelude::*;

verus! {

/// Every recoverable failure of the filesystem's operations.
#[derive(Debug, Clone, Copy, PartialEq, Eq, Structural)]
pub enum FsError {
    /// The superblock has no free inode slot (or inode numbers are exhausted).
    OutOfInodes,
    /// The block pool cannot satisfy a block request.
    OutOfSpace,
    /// The name is already present in the directory.
    NameExists,
    /// The name is not present in the directory.
    NameNotFound,
    /// No live inode has the given number.
    NotFound,
    /// A released block index is already free, or appears twice.
    DoubleFree,
    /// A released block index lies outside the pool.
    InvalidIndex,
}

} // verus!
