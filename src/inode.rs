use vstd::prelude::*;

verus! {

/// Owner may read.
pub const PERMISSION_READ: u16 = 0o400;
/// Owner may write.
pub const PERMISSION_WRITE: u16 = 0o200;
/// Owner may execute.
pub const PERMISSION_EXECUTE: u16 = 0o100;
/// Others may read.
pub const PERMISSION_READ_OTHER: u16 = 0o004;
/// Others may write.
pub const PERMISSION_WRITE_OTHER: u16 = 0o002;
/// Others may execute.
pub const PERMISSION_EXECUTE_OTHER: u16 = 0o001;

/// Permissions of a fresh inode: owner read, write and execute, others read.
pub const DEFAULT_PERMISSIONS: u16 = 0o704;

/// Metadata of one file.
pub struct Inode {
    /// Unique, positive, never reused while the filesystem lives.
    pub inode_number: usize,
    /// Byte length of the content.
    pub size: u64,
    /// Bitmask over the `PERMISSION_*` bits.
    pub permissions: u16,
    /// Last-modified marker.
    pub timestamp: u64,
    /// Block indices owned by this inode, in order.
    pub data_blocks: Vec<usize>,
}

impl Inode {
    /// An inode as it is right after allocation under number `n`.
    pub open spec fn is_fresh(&self, n: usize) -> bool {
        &&& self.inode_number == n
        &&& self.size == 0
        &&& self.permissions == DEFAULT_PERMISSIONS
        &&& self.timestamp == 0
        &&& self.data_blocks@.len() == 0
    }

    /// A fresh inode with number `inode_number`: no content, zero timestamp,
    /// default permissions.
    pub fn new(inode_number: usize) -> (r: Inode)
        ensures
            r.is_fresh(inode_number),
    {
        proof {
            assert(0o400u16 | 0o200u16 | 0o100u16 | 0o004u16 == 0o704u16) by (bit_vector);
        }
        Inode {
            inode_number,
            size: 0,
            permissions: PERMISSION_READ | PERMISSION_WRITE | PERMISSION_EXECUTE
                | PERMISSION_READ_OTHER,
            timestamp: 0,
            data_blocks: Vec::new(),
        }
    }

    /// Replaces the permission mask; nothing else changes.
    pub fn set_permissions(&mut self, perms: u16)
        ensures
            final(self).permissions == perms,
            final(self).inode_number == old(self).inode_number,
            final(self).size == old(self).size,
            final(self).timestamp == old(self).timestamp,
            final(self).data_blocks@ == old(self).data_blocks@,
    {
        self.permissions = perms;
    }
}

} // verus!
