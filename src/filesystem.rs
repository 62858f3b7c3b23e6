use vstd::prelude::*;
use crate::directory::Directory;
use crate::error::FsError;
use crate::inode::Inode;
use crate::superblock::{SuperBlock, all_in_range, all_owned};

verus! {

/// What `stat` reports of one inode.
#[derive(Debug, Clone, Copy, PartialEq, Eq, Structural)]
pub struct InodeSnapshot {
    pub size: u64,
    pub permissions: u16,
    pub timestamp: u64,
    pub block_count: usize,
}

/// A filesystem with one flat root namespace.
///
/// Slot `k` of the inode table, entry `k` of the root directory and entry `k`
/// of the superblock's list of live inode numbers all describe the same file:
/// each name refers to exactly one inode, and deleting the name deletes the
/// inode. Inode numbers come from a counter that only moves forward, so a
/// number is never issued twice. `clock` marks modifications.
pub struct Filesystem {
    superblock: SuperBlock,
    inodes: Vec<Inode>,
    root: Directory,
    next_inode_number: usize,
    clock: u64,
}

/// Number of blocks of `block_size` bytes needed to hold `size` bytes.
pub open spec fn blocks_for(size: u64, block_size: usize) -> int {
    let s = size as int;
    let b = block_size as int;
    if s % b == 0 {
        s / b
    } else {
        s / b + 1
    }
}

/// Total number of blocks owned by the inodes of `s`.
pub open spec fn sum_blocks(s: Seq<Inode>) -> int
    decreases s.len(),
{
    if s.len() == 0 {
        0
    } else {
        sum_blocks(s.drop_last()) + s.last().data_blocks@.len()
    }
}

/// The clock after one modification: it advances until it saturates.
pub open spec fn tick(c: u64) -> u64 {
    if c < u64::MAX {
        (c + 1) as u64
    } else {
        c
    }
}

/// The blocks of `i` are distinct, inside the pool, not free, and exactly as
/// many as its size needs.
pub open spec fn inode_ok(i: Inode, sb: SuperBlock) -> bool {
    &&& all_in_range(i.data_blocks@, sb.total_blocks)
    &&& all_owned(i.data_blocks@, sb.free_blocks@)
    &&& i.data_blocks@.len() == blocks_for(i.size, sb.block_size)
}

proof fn lemma_sum_update(s: Seq<Inode>, k: int, x: Inode)
    requires
        0 <= k < s.len(),
    ensures
        sum_blocks(s.update(k, x)) == sum_blocks(s) - s[k].data_blocks@.len()
            + x.data_blocks@.len(),
    decreases s.len(),
{
    if k == s.len() - 1 {
        assert(s.update(k, x).drop_last() =~= s.drop_last());
    } else {
        assert(s.update(k, x).drop_last() =~= s.drop_last().update(k, x));
        lemma_sum_update(s.drop_last(), k, x);
    }
}

proof fn lemma_sum_remove(s: Seq<Inode>, k: int)
    requires
        0 <= k < s.len(),
    ensures
        sum_blocks(s.remove(k)) == sum_blocks(s) - s[k].data_blocks@.len(),
    decreases s.len(),
{
    if k == s.len() - 1 {
        assert(s.remove(k) =~= s.drop_last());
    } else {
        assert(s.remove(k).drop_last() =~= s.drop_last().remove(k));
        lemma_sum_remove(s.drop_last(), k);
    }
}

impl Filesystem {
    /// The superblock.
    pub closed spec fn sb(&self) -> SuperBlock {
        self.superblock
    }

    /// The inode table, in order of creation.
    pub closed spec fn inode_seq(&self) -> Seq<Inode> {
        self.inodes@
    }

    /// The names of the root directory; name `k` refers to inode `k`.
    pub closed spec fn names(&self) -> Seq<Seq<char>> {
        self.root.names()
    }

    /// The number the next created inode will get.
    pub closed spec fn next_number(&self) -> usize {
        self.next_inode_number
    }

    /// The current modification mark.
    pub closed spec fn clock(&self) -> u64 {
        self.clock
    }

    /// The numbers of the live inodes, in the order of the inode table.
    pub open spec fn numbers(&self) -> Seq<usize> {
        self.sb().allocated_inodes@
    }

    /// Whether `n` is the number of a live inode.
    pub open spec fn is_live(&self, n: usize) -> bool {
        self.numbers().contains(n)
    }

    /// The consistency of all the structures.
    pub closed spec fn wf(&self) -> bool {
        let sb = self.superblock;
        let ins = self.inodes@;
        let nums = sb.allocated_inodes@;
        &&& sb.pool_wf()
        &&& self.root.wf()
        &&& sb.block_size > 0
        &&& self.next_inode_number > 0
        &&& ins.len() == nums.len()
        &&& self.root.names().len() == nums.len()
        &&& forall|k: int|
            0 <= k < nums.len() ==> #[trigger] nums[k] == ins[k].inode_number
                && self.root.numbers()[k] == nums[k]
        &&& sb.free_inodes + nums.len() == sb.total_inodes
        &&& forall|j: int, k: int| 0 <= j < k < nums.len() ==> nums[j] < nums[k]
        &&& forall|k: int| 0 <= k < nums.len() ==> 0 < #[trigger] nums[k] < self.next_inode_number
        &&& forall|k: int|
            0 <= k < ins.len() ==> inode_ok(#[trigger] ins[k], sb) && ins[k].timestamp
                <= self.clock
        &&& forall|j: int, k: int|
            0 <= j < ins.len() && 0 <= k < ins.len() && j != k ==> (#[trigger] ins[j]).data_blocks@.disjoint(
                (#[trigger] ins[k]).data_blocks@,
            )
        &&& sb.free_blocks@.len() + sum_blocks(ins) == sb.total_blocks
    }

    /// What `create_file(name)` does, returning `r`, to `self`, leaving `post`.
    pub open spec fn creates(&self, post: Filesystem, name: Seq<char>, r: Result<usize, FsError>) -> bool {
        if self.sb().free_inodes == 0 || self.next_number() == usize::MAX {
            r == Err::<usize, FsError>(FsError::OutOfInodes) && post == *self
        } else if self.names().contains(name) {
            r == Err::<usize, FsError>(FsError::NameExists) && post == *self
        } else {
            let n = self.next_number();
            &&& r == Ok::<usize, FsError>(n)
            &&& post.next_number() == n + 1
            &&& post.inode_seq().len() == self.inode_seq().len() + 1
            &&& post.inode_seq().drop_last() == self.inode_seq()
            &&& post.inode_seq().last().is_fresh(n)
            &&& post.names() == self.names().push(name)
            &&& post.numbers() == self.numbers().push(n)
            &&& post.sb().free_inodes == self.sb().free_inodes - 1
            &&& post.sb().total_inodes == self.sb().total_inodes
            &&& post.sb().block_size == self.sb().block_size
            &&& post.sb().total_blocks == self.sb().total_blocks
            &&& post.sb().free_blocks@ == self.sb().free_blocks@
            &&& post.clock() == self.clock()
        }
    }

    /// What `delete_file(name)` does, returning `r`, to `self`, leaving `post`.
    pub open spec fn deletes(&self, post: Filesystem, name: Seq<char>, r: Result<(), FsError>) -> bool {
        if !self.names().contains(name) {
            r == Err::<(), FsError>(FsError::NameNotFound) && post == *self
        } else {
            let k = self.names().index_of(name);
            &&& r == Ok::<(), FsError>(())
            &&& post.inode_seq() == self.inode_seq().remove(k)
            &&& post.names() == self.names().remove(k)
            &&& post.numbers() == self.numbers().remove(k)
            &&& post.sb().free_inodes == self.sb().free_inodes + 1
            &&& post.sb().total_inodes == self.sb().total_inodes
            &&& post.sb().block_size == self.sb().block_size
            &&& post.sb().total_blocks == self.sb().total_blocks
            &&& post.sb().free_blocks@ == self.sb().free_blocks@
                + self.inode_seq()[k].data_blocks@
            &&& post.next_number() == self.next_number()
            &&& post.clock() == self.clock()
        }
    }

    /// What `write_data(n, bytes)` does, returning `r`, to `self`, leaving `post`.
    ///
    /// The inode ends with exactly `blocks_for(bytes, block_size)` blocks:
    /// missing ones come from the front of the free list, surplus ones at
    /// the end of the inode's list go back to the end of the free list.
    pub open spec fn writes(&self, post: Filesystem, n: usize, bytes: u64, r: Result<(), FsError>) -> bool {
        if !self.is_live(n) {
            r == Err::<(), FsError>(FsError::NotFound) && post == *self
        } else {
            let k = self.numbers().index_of(n);
            let before = self.inode_seq()[k];
            let after = post.inode_seq()[k];
            let have = before.data_blocks@.len() as int;
            let need = blocks_for(bytes, self.sb().block_size);
            let free = self.sb().free_blocks@;
            if need - have > free.len() {
                r == Err::<(), FsError>(FsError::OutOfSpace) && post == *self
            } else {
                &&& r == Ok::<(), FsError>(())
                &&& post.inode_seq() == self.inode_seq().update(k, after)
                &&& after.inode_number == n
                &&& after.size == bytes
                &&& after.permissions == before.permissions
                &&& post.clock() == tick(self.clock())
                &&& after.timestamp == post.clock()
                &&& have <= need ==> after.data_blocks@ == before.data_blocks@ + free.subrange(
                    0,
                    need - have,
                ) && post.sb().free_blocks@ == free.subrange(need - have, free.len() as int)
                &&& need < have ==> after.data_blocks@ == before.data_blocks@.subrange(0, need)
                    && post.sb().free_blocks@ == free + before.data_blocks@.subrange(
                    need,
                    have,
                )
                &&& post.names() == self.names()
                &&& post.numbers() == self.numbers()
                &&& post.sb().free_inodes == self.sb().free_inodes
                &&& post.sb().total_inodes == self.sb().total_inodes
                &&& post.sb().block_size == self.sb().block_size
                &&& post.sb().total_blocks == self.sb().total_blocks
                &&& post.next_number() == self.next_number()
            }
        }
    }

    /// What `set_permissions(n, mask)` does, returning `r`, to `self`, leaving `post`.
    pub open spec fn permits(&self, post: Filesystem, n: usize, mask: u16, r: Result<(), FsError>) -> bool {
        if !self.is_live(n) {
            r == Err::<(), FsError>(FsError::NotFound) && post == *self
        } else {
            let k = self.numbers().index_of(n);
            let before = self.inode_seq()[k];
            let after = post.inode_seq()[k];
            &&& r == Ok::<(), FsError>(())
            &&& post.inode_seq() == self.inode_seq().update(k, after)
            &&& after.inode_number == n
            &&& after.size == before.size
            &&& after.permissions == mask
            &&& after.data_blocks@ == before.data_blocks@
            &&& post.clock() == tick(self.clock())
            &&& after.timestamp == post.clock()
            &&& post.names() == self.names()
            &&& post.sb() == self.sb()
            &&& post.next_number() == self.next_number()
        }
    }

    /// What `stat(n)` reports of `self`.
    pub open spec fn stat_spec(&self, n: usize) -> Option<InodeSnapshot> {
        if !self.is_live(n) {
            None
        } else {
            let i = self.inode_seq()[self.numbers().index_of(n)];
            Some(
                InodeSnapshot {
                    size: i.size,
                    permissions: i.permissions,
                    timestamp: i.timestamp,
                    block_count: i.data_blocks@.len() as usize,
                },
            )
        }
    }

    /// The inode number that `name` refers to in `self`, if any.
    pub open spec fn lookup_spec(&self, name: Seq<char>) -> Option<usize> {
        if self.names().contains(name) {
            Some(self.numbers()[self.names().index_of(name)])
        } else {
            None
        }
    }

    /// An empty filesystem: `total_inodes` free inode slots, and
    /// `total_blocks` free blocks of `block_size` bytes each.
    pub fn new(total_inodes: usize, block_size: usize, total_blocks: usize) -> (r: Filesystem)
        requires
            block_size > 0,
        ensures
            r.wf(),
            r.inode_seq().len() == 0,
            r.names().len() == 0,
            r.numbers().len() == 0,
            r.next_number() == 1,
            r.clock() == 0,
            r.sb().total_inodes == total_inodes,
            r.sb().free_inodes == total_inodes,
            r.sb().block_size == block_size,
            r.sb().total_blocks == total_blocks,
            r.sb().free_blocks@.len() == total_blocks,
            forall|i: int| 0 <= i < total_blocks ==> r.sb().free_blocks@[i] == i,
    {
        let fs = Filesystem {
            superblock: SuperBlock::new(total_inodes, block_size, total_blocks),
            inodes: Vec::new(),
            root: Directory::new(),
            next_inode_number: 1,
            clock: 0,
        };
        assert(sum_blocks(fs.inodes@) == 0);
        fs
    }

    /// Creates an empty file named `filename` in the root directory and
    /// returns its inode number. Fails with `OutOfInodes` when no inode slot
    /// is free, else with `NameExists` when the name is taken; a failure
    /// changes nothing.
    pub fn create_file(&mut self, filename: String) -> (r: Result<usize, FsError>)
        requires
            old(self).wf(),
        ensures
            final(self).wf(),
            old(self).creates(*final(self), filename@, r),
    {
        if self.superblock.free_inodes == 0 || self.next_inode_number == usize::MAX {
            return Err(FsError::OutOfInodes);
        }
        let n = self.next_inode_number;
        let ghost name = filename@;
        match self.root.add_file(filename, n) {
            Ok(()) => {},
            Err(e) => {
                return Err(e);
            },
        }
        let ghost pre = self.inodes@;
        self.inodes.push(Inode::new(n));
        self.superblock.allocated_inodes.push(n);
        self.superblock.free_inodes = self.superblock.free_inodes - 1;
        self.next_inode_number = n + 1;
        proof {
            assert(self.inodes@.drop_last() =~= pre);
            let ins = self.inodes@;
            let nums = self.superblock.allocated_inodes@;
            assert forall|k: int|
                0 <= k < nums.len() implies #[trigger] nums[k] == ins[k].inode_number
                && self.root.numbers()[k] == nums[k] by {
                if k < nums.len() - 1 {
                    assert(nums[k] == old(self).superblock.allocated_inodes@[k]);
                }
            }
            assert forall|k: int|
                0 <= k < ins.len() implies inode_ok(#[trigger] ins[k], self.superblock)
                && ins[k].timestamp <= self.clock by {
                if k < ins.len() - 1 {
                    assert(ins[k] == pre[k]);
                }
            }
            assert(sum_blocks(ins) == sum_blocks(pre));
            assert forall|j: int, k: int| 0 <= j < k < nums.len() implies nums[j] < nums[k] by {
                let onums = old(self).superblock.allocated_inodes@;
                if k < nums.len() - 1 {
                    assert(nums[j] == onums[j] && nums[k] == onums[k]);
                } else {
                    assert(nums[j] == onums[j]);
                }
            }
            assert forall|k: int| 0 <= k < nums.len() implies 0 < #[trigger] nums[k]
                < self.next_inode_number by {
                if k < nums.len() - 1 {
                    assert(nums[k] == old(self).superblock.allocated_inodes@[k]);
                }
            }
            assert forall|j: int, k: int|
                0 <= j < ins.len() && 0 <= k < ins.len() && j != k implies (#[trigger] ins[j]).data_blocks@.disjoint(
                (#[trigger] ins[k]).data_blocks@) by {
                if j < ins.len() - 1 && k < ins.len() - 1 {
                    assert(ins[j] == pre[j] && ins[k] == pre[k]);
                }
            }
        }
        Ok(n)
    }

    /// Deletes the file named `filename`: its directory entry goes, its
    /// blocks return to the end of the free list, and its inode slot is
    /// freed. Fails with `NameNotFound`, changing nothing, when no file has
    /// that name.
    pub fn delete_file(&mut self, filename: &str) -> (r: Result<(), FsError>)
        requires
            old(self).wf(),
        ensures
            final(self).wf(),
            old(self).deletes(*final(self), filename@, r),
    {
        let p = match self.root.find(filename) {
            Some(p) => p,
            None => {
                return Err(FsError::NameNotFound);
            },
        };
        let ghost pre = self.inodes@;
        let ghost pre_nums = self.superblock.allocated_inodes@;
        let ghost pre_free = self.superblock.free_blocks@;
        let inode = self.inodes.remove(p);
        self.superblock.allocated_inodes.remove(p);
        let _ = self.root.remove_at(p);
        self.superblock.free_inodes = self.superblock.free_inodes + 1;
        proof {
            assert(inode == pre[p as int]);
            assert(inode_ok(pre[p as int], old(self).superblock));
        }
        let r = self.superblock.release_blocks(inode.data_blocks);
        proof {
            let ins = self.inodes@;
            let nums = self.superblock.allocated_inodes@;
            let gone = pre[p as int].data_blocks@;
            let free = self.superblock.free_blocks@;
            assert(free == pre_free + gone);
            lemma_sum_remove(pre, p as int);
            assert forall|a: int|
                0 <= a < nums.len() implies #[trigger] nums[a] == ins[a].inode_number
                && self.root.numbers()[a] == nums[a] by {
                let a2 = if a < p { a } else { a + 1 };
                assert(nums[a] == pre_nums[a2] && ins[a] == pre[a2]);
                assert(self.root.numbers()[a] == old(self).root.numbers()[a2]);
            }
            assert forall|a: int, b: int| 0 <= a < b < nums.len() implies nums[a] < nums[b] by {
                let a2 = if a < p { a } else { a + 1 };
                let b2 = if b < p { b } else { b + 1 };
                assert(nums[a] == pre_nums[a2] && nums[b] == pre_nums[b2]);
            }
            assert forall|a: int| 0 <= a < nums.len() implies 0 < #[trigger] nums[a]
                < self.next_inode_number by {
                let a2 = if a < p { a } else { a + 1 };
                assert(nums[a] == pre_nums[a2]);
            }
            assert forall|a: int|
                0 <= a < ins.len() implies inode_ok(#[trigger] ins[a], self.superblock)
                && ins[a].timestamp <= self.clock by {
                let a2 = if a < p { a } else { a + 1 };
                assert(ins[a] == pre[a2]);
                assert(inode_ok(pre[a2], old(self).superblock));
                let bl = ins[a].data_blocks@;
                assert(pre[a2].data_blocks@.disjoint(gone));
                assert forall|i: int| 0 <= i < bl.len() implies !free.contains(#[trigger] bl[i]) by {
                    if free.contains(bl[i]) {
                        let j = choose|j: int| 0 <= j < free.len() && free[j] == bl[i];
                        if j < pre_free.len() {
                            assert(pre_free[j] == bl[i]);
                            assert(pre_free.contains(bl[i]));
                        } else {
                            assert(gone[j - pre_free.len()] == bl[i]);
                        }
                    }
                }
            }
            assert forall|a: int, b: int|
                0 <= a < ins.len() && 0 <= b < ins.len() && a != b implies (#[trigger] ins[a]).data_blocks@.disjoint(
                (#[trigger] ins[b]).data_blocks@) by {
                let a2 = if a < p { a } else { a + 1 };
                let b2 = if b < p { b } else { b + 1 };
                assert(ins[a] == pre[a2] && ins[b] == pre[b2]);
            }
        }
        r
    }

    /// The slot of the live inode numbered `n`, if there is one.
    fn slot_of(&self, n: usize) -> (r: Option<usize>)
        requires
            self.wf(),
        ensures
            match r {
                Some(k) => k < self.numbers().len() && self.numbers()[k as int] == n
                    && self.numbers().index_of(n) == k as int,
                None => !self.is_live(n),
            },
    {
        let mut i: usize = 0;
        while i < self.superblock.allocated_inodes.len()
            invariant
                self.wf(),
                i <= self.numbers().len(),
                forall|j: int| 0 <= j < i ==> self.numbers()[j] != n,
            decreases self.numbers().len() - i,
        {
            if self.superblock.allocated_inodes[i] == n {
                proof {
                    let ns = self.numbers();
                    assert(ns.contains(n));
                    let q = ns.index_of(n);
                    if q < i {
                    } else if q > i {
                        assert(ns[i as int] < ns[q]);
                    }
                }
                return Some(i);
            }
            i = i + 1;
        }
        None
    }

    /// `post` differs from `pre` only in the blocks of slot `k` and in the
    /// free list; the blocks of slot `k` still satisfy the invariant's block
    /// conditions against the new free list and the other slots, and no
    /// block was created or lost.
    closed spec fn blocks_moved(pre: Filesystem, post: Filesystem, k: int) -> bool {
        let nb = post.inodes@[k].data_blocks@;
        let nf = post.superblock.free_blocks@;
        let before = pre.inodes@[k];
        let after = post.inodes@[k];
        &&& post.inodes@.len() == pre.inodes@.len()
        &&& forall|a: int| 0 <= a < pre.inodes@.len() && a != k ==> post.inodes@[a] == pre.inodes@[a]
        &&& after.inode_number == before.inode_number
        &&& after.size == before.size
        &&& after.permissions == before.permissions
        &&& after.timestamp == before.timestamp
        &&& post.superblock.pool_wf()
        &&& post.superblock.same_but_blocks(&pre.superblock)
        &&& post.root == pre.root
        &&& post.next_inode_number == pre.next_inode_number
        &&& post.clock == pre.clock
        &&& all_in_range(nb, post.superblock.total_blocks)
        &&& all_owned(nb, nf)
        &&& forall|a: int|
            0 <= a < pre.inodes@.len() && a != k ==> all_owned(#[trigger] pre.inodes@[a].data_blocks@, nf)
                && pre.inodes@[a].data_blocks@.disjoint(nb)
        &&& nf.len() + nb.len() == pre.superblock.free_blocks@.len() + before.data_blocks@.len()
    }

    /// Appends the first `delta` free blocks to the blocks of slot `k`.
    fn grow_blocks(&mut self, k: usize, delta: usize)
        requires
            old(self).wf(),
            k < old(self).inodes@.len(),
            delta <= old(self).superblock.free_blocks@.len(),
        ensures
            Self::blocks_moved(*old(self), *final(self), k as int),
            final(self).inodes@[k as int].data_blocks@ == old(self).inodes@[k as int].data_blocks@
                + old(self).superblock.free_blocks@.subrange(0, delta as int),
            final(self).superblock.free_blocks@ == old(self).superblock.free_blocks@.subrange(
                delta as int,
                old(self).superblock.free_blocks@.len() as int,
            ),
    {
        let ghost pre = self.inodes@;
        let ghost free = self.superblock.free_blocks@;
        let ghost blocks = pre[k as int].data_blocks@;
        proof {
            assert(inode_ok(pre[k as int], self.superblock));
        }
        let mut got = match self.superblock.allocate_blocks(delta) {
            Ok(v) => v,
            Err(_) => {
                return;
            },
        };
        self.inodes[k].data_blocks.append(&mut got);
        proof {
            let nb = self.inodes@[k as int].data_blocks@;
            let nf = self.superblock.free_blocks@;
            let d = delta as int;
            let bl = blocks.len() as int;
            assert(nb == blocks + free.subrange(0, d));
            assert forall|i: int, j: int|
                0 <= i < nb.len() && 0 <= j < nb.len() && i != j implies nb[i] != nb[j] by {
                if i < bl && j >= bl {
                    assert(free.contains(nb[j]) && nb[j] == free[j - bl]);
                } else if i >= bl && j < bl {
                    assert(free.contains(nb[i]) && nb[i] == free[i - bl]);
                } else if i >= bl && j >= bl {
                    assert(nb[i] == free[i - bl] && nb[j] == free[j - bl]);
                }
            }
            assert forall|i: int| 0 <= i < nb.len() implies !nf.contains(#[trigger] nb[i]) by {
                if nf.contains(nb[i]) {
                    let j = choose|j: int| 0 <= j < nf.len() && nf[j] == nb[i];
                    assert(nf[j] == free[j + d]);
                    if i < bl {
                        assert(free.contains(blocks[i]));
                    } else {
                        assert(nb[i] == free[i - bl]);
                    }
                }
            }
            assert forall|i: int| 0 <= i < nb.len() implies nb[i] < self.superblock.total_blocks by {
                if i >= bl {
                    assert(nb[i] == free[i - bl]);
                }
            }
            assert forall|a: int| 0 <= a < pre.len() && a != k implies all_owned(
                #[trigger] pre[a].data_blocks@,
                nf,
            ) && pre[a].data_blocks@.disjoint(nb) by {
                let ob = pre[a].data_blocks@;
                assert(inode_ok(pre[a], old(self).superblock));
                assert(ob.disjoint(blocks));
                assert forall|i: int| 0 <= i < ob.len() implies !nf.contains(#[trigger] ob[i]) by {
                    if nf.contains(ob[i]) {
                        let j = choose|j: int| 0 <= j < nf.len() && nf[j] == ob[i];
                        assert(nf[j] == free[j + d]);
                        assert(free.contains(ob[i]));
                    }
                }
                assert forall|i: int, j: int| 0 <= i < ob.len() && 0 <= j < nb.len() implies ob[i]
                    != nb[j] by {
                    if j >= bl {
                        assert(nb[j] == free[j - bl]);
                        assert(free.contains(nb[j]));
                    }
                }
            }
        }
    }

    /// Returns the blocks of slot `k` from position `keep` on to the free list.
    fn shrink_blocks(&mut self, k: usize, keep: usize)
        requires
            old(self).wf(),
            k < old(self).inodes@.len(),
            keep <= old(self).inodes@[k as int].data_blocks@.len(),
        ensures
            Self::blocks_moved(*old(self), *final(self), k as int),
            final(self).inodes@[k as int].data_blocks@ == old(self).inodes@[k as int].data_blocks@.subrange(0, keep as int),
            final(self).superblock.free_blocks@ == old(self).superblock.free_blocks@
                + old(self).inodes@[k as int].data_blocks@.subrange(keep as int, old(self).inodes@[k as int].data_blocks@.len() as int),
    {
        let ghost pre = self.inodes@;
        let ghost free = self.superblock.free_blocks@;
        let ghost blocks = pre[k as int].data_blocks@;
        proof {
            assert(inode_ok(pre[k as int], self.superblock));
        }
        let tail = self.inodes[k].data_blocks.split_off(keep);
        proof {
            let t = tail@;
            let n = keep as int;
            assert forall|i: int| 0 <= i < t.len() implies t[i] < self.superblock.total_blocks by {
                assert(t[i] == blocks[i + n]);
            }
            assert forall|i: int, j: int|
                0 <= i < t.len() && 0 <= j < t.len() && i != j implies t[i] != t[j] by {
                assert(t[i] == blocks[i + n] && t[j] == blocks[j + n]);
            }
            assert forall|i: int| 0 <= i < t.len() implies !free.contains(#[trigger] t[i]) by {
                assert(t[i] == blocks[i + n]);
            }
        }
        match self.superblock.release_blocks(tail) {
            Ok(()) => {},
            Err(_) => {
                return;
            },
        }
        proof {
            let nb = self.inodes@[k as int].data_blocks@;
            let nf = self.superblock.free_blocks@;
            let n = keep as int;
            let fl = free.len() as int;
            assert(nb == blocks.subrange(0, n));
            assert(nf == free + blocks.subrange(n, blocks.len() as int));
            assert forall|i: int, j: int|
                0 <= i < nb.len() && 0 <= j < nb.len() && i != j implies nb[i] != nb[j] by {
                assert(nb[i] == blocks[i] && nb[j] == blocks[j]);
            }
            assert forall|i: int| 0 <= i < nb.len() implies nb[i] < self.superblock.total_blocks by {
                assert(nb[i] == blocks[i]);
            }
            assert forall|i: int| 0 <= i < nb.len() implies !nf.contains(#[trigger] nb[i]) by {
                assert(nb[i] == blocks[i]);
                if nf.contains(nb[i]) {
                    let j = choose|j: int| 0 <= j < nf.len() && nf[j] == nb[i];
                    if j < fl {
                        assert(free.contains(blocks[i]));
                    } else {
                        assert(nf[j] == blocks[j - fl + n]);
                    }
                }
            }
            assert forall|a: int| 0 <= a < pre.len() && a != k implies all_owned(
                #[trigger] pre[a].data_blocks@,
                nf,
            ) && pre[a].data_blocks@.disjoint(nb) by {
                let ob = pre[a].data_blocks@;
                assert(inode_ok(pre[a], old(self).superblock));
                assert(ob.disjoint(blocks));
                assert forall|i: int| 0 <= i < ob.len() implies !nf.contains(#[trigger] ob[i]) by {
                    if nf.contains(ob[i]) {
                        let j = choose|j: int| 0 <= j < nf.len() && nf[j] == ob[i];
                        if j < fl {
                            assert(free.contains(ob[i]));
                        } else {
                            assert(nf[j] == blocks[j - fl + n]);
                        }
                    }
                }
                assert forall|i: int, j: int| 0 <= i < ob.len() && 0 <= j < nb.len() implies ob[i]
                    != nb[j] by {
                    assert(nb[j] == blocks[j]);
                }
            }
        }
    }

    /// Sets the size of inode `inode_number` to `byte_count` bytes and gives
    /// it exactly the blocks that size needs, taking missing blocks from the
    /// free list and returning surplus ones. Fails with `NotFound` when no
    /// live inode has that number, else with `OutOfSpace` when too few blocks
    /// are free; a failure changes nothing.
    pub fn write_data(&mut self, inode_number: usize, byte_count: u64) -> (r: Result<(), FsError>)
        requires
            old(self).wf(),
        ensures
            final(self).wf(),
            old(self).writes(*final(self), inode_number, byte_count, r),
    {
        let k = match self.slot_of(inode_number) {
            Some(k) => k,
            None => {
                return Err(FsError::NotFound);
            },
        };
        let bs = self.superblock.block_size as u64;
        let need: u64 = if byte_count % bs == 0 {
            byte_count / bs
        } else {
            assert(byte_count / bs < u64::MAX) by (nonlinear_arith)
                requires
                    bs > 1,
            ;
            byte_count / bs + 1
        };
        let ghost pre = self.inodes@;
        let ghost mid = *self;
        proof {
            assert(self.inodes@[k as int].inode_number == inode_number);
            assert(inode_ok(pre[k as int], self.superblock));
        }
        let have = self.inodes[k].data_blocks.len();
        if need > have as u64 {
            let delta64 = need - have as u64;
            if delta64 > self.superblock.free_blocks.len() as u64 {
                return Err(FsError::OutOfSpace);
            }
            self.grow_blocks(k, delta64 as usize);
        } else if need < have as u64 {
            self.shrink_blocks(k, need as usize);
        } else {
            proof {
                assert forall|a: int| 0 <= a < pre.len() && a != k implies all_owned(
                    #[trigger] pre[a].data_blocks@,
                    self.superblock.free_blocks@,
                ) && pre[a].data_blocks@.disjoint(pre[k as int].data_blocks@) by {
                    assert(inode_ok(pre[a], old(self).superblock));
                }
                assert(Self::blocks_moved(mid, *self, k as int));
                let blocks = pre[k as int].data_blocks@;
                let free = self.superblock.free_blocks@;
                assert(blocks + free.subrange(0, 0) =~= blocks);
                assert(free.subrange(0, free.len() as int) =~= free);
            }
        }
        self.clock = if self.clock < u64::MAX {
            self.clock + 1
        } else {
            self.clock
        };
        self.inodes[k].size = byte_count;
        self.inodes[k].timestamp = self.clock;
        proof {
            let ins = self.inodes@;
            let sb = self.superblock;
            let nb = ins[k as int].data_blocks@;
            assert(ins == pre.update(k as int, ins[k as int]));
            lemma_sum_update(pre, k as int, ins[k as int]);
            assert(old(self).numbers()[k as int] == inode_number);
            assert(old(self).is_live(inode_number));
            assert(need as int == blocks_for(byte_count, sb.block_size));
            assert(nb.len() == need as int);
            assert forall|a: int|
                0 <= a < ins.len() implies inode_ok(#[trigger] ins[a], sb) && ins[a].timestamp
                <= self.clock by {
                if a != k {
                    assert(inode_ok(pre[a], old(self).superblock));
                    assert(ins[a] == pre[a]);
                }
            }
            assert forall|a: int, b: int|
                0 <= a < ins.len() && 0 <= b < ins.len() && a != b implies (#[trigger] ins[a]).data_blocks@.disjoint(
                (#[trigger] ins[b]).data_blocks@) by {
                if a == k {
                    assert(pre[b].data_blocks@.disjoint(nb));
                } else if b == k {
                    assert(pre[a].data_blocks@.disjoint(nb));
                } else {
                    assert(ins[a] == pre[a] && ins[b] == pre[b]);
                }
            }
        }
        Ok(())
    }

    /// Replaces the permission mask of inode `inode_number`. Fails with
    /// `NotFound`, changing nothing, when no live inode has that number.
    pub fn set_permissions(&mut self, inode_number: usize, mask: u16) -> (r: Result<(), FsError>)
        requires
            old(self).wf(),
        ensures
            final(self).wf(),
            old(self).permits(*final(self), inode_number, mask, r),
    {
        let k = match self.slot_of(inode_number) {
            Some(k) => k,
            None => {
                return Err(FsError::NotFound);
            },
        };
        let ghost pre = self.inodes@;
        self.clock = if self.clock < u64::MAX {
            self.clock + 1
        } else {
            self.clock
        };
        self.inodes[k].set_permissions(mask);
        self.inodes[k].timestamp = self.clock;
        proof {
            let ins = self.inodes@;
            assert(ins == pre.update(k as int, ins[k as int]));
            lemma_sum_update(pre, k as int, ins[k as int]);
            assert(old(self).numbers()[k as int] == inode_number);
            assert(old(self).is_live(inode_number));
            assert forall|a: int|
                0 <= a < ins.len() implies inode_ok(#[trigger] ins[a], self.superblock)
                && ins[a].timestamp <= self.clock by {
                assert(inode_ok(pre[a], old(self).superblock));
            }
            assert forall|a: int, b: int|
                0 <= a < ins.len() && 0 <= b < ins.len() && a != b implies (#[trigger] ins[a]).data_blocks@.disjoint(
                (#[trigger] ins[b]).data_blocks@) by {
                assert(pre[a].data_blocks@.disjoint(pre[b].data_blocks@));
            }
        }
        Ok(())
    }

    /// The inode number that `filename` refers to, if any.
    pub fn lookup(&self, filename: &str) -> (r: Option<usize>)
        requires
            self.wf(),
        ensures
            r == self.lookup_spec(filename@),
    {
        match self.root.find(filename) {
            Some(p) => Some(self.superblock.allocated_inodes[p]),
            None => None,
        }
    }

    /// Size, permissions, timestamp and block count of inode `inode_number`,
    /// or `None` when no live inode has that number.
    pub fn stat(&self, inode_number: usize) -> (r: Option<InodeSnapshot>)
        requires
            self.wf(),
        ensures
            r == self.stat_spec(inode_number),
    {
        match self.slot_of(inode_number) {
            Some(k) => {
                proof {
                    assert(self.numbers().contains(inode_number));
                }
                let i = &self.inodes[k];
                Some(
                    InodeSnapshot {
                        size: i.size,
                        permissions: i.permissions,
                        timestamp: i.timestamp,
                        block_count: i.data_blocks.len(),
                    },
                )
            },
            None => None,
        }
    }

    /// The superblock.
    pub fn superblock(&self) -> (r: &SuperBlock)
        ensures
            *r == self.sb(),
    {
        &self.superblock
    }

    /// The block indices owned by inode `inode_number`, in order, or `None`
    /// when no live inode has that number.
    pub fn data_blocks(&self, inode_number: usize) -> (r: Option<&Vec<usize>>)
        requires
            self.wf(),
        ensures
            !self.is_live(inode_number) ==> r is None,
            self.is_live(inode_number) ==> r is Some && r->Some_0@ == self.inode_seq()[self.numbers().index_of(
                inode_number,
            )].data_blocks@,
    {
        match self.slot_of(inode_number) {
            Some(k) => Some(&self.inodes[k].data_blocks),
            None => None,
        }
    }
}


/// In every consistent state, free inode slots and live inodes add up to
/// the inode capacity, and free blocks and owned blocks add up to the
/// block capacity.
pub proof fn lemma_capacity(fs: Filesystem)
    requires
        fs.wf(),
    ensures
        fs.sb().free_inodes + fs.numbers().len() == fs.sb().total_inodes,
        fs.sb().free_blocks@.len() + sum_blocks(fs.inode_seq()) == fs.sb().total_blocks,
{
}

/// In every consistent state, no block is both free and owned, no block is
/// owned by two inodes, and every owned block lies inside the pool.
pub proof fn lemma_blocks_disjoint(fs: Filesystem)
    requires
        fs.wf(),
    ensures
        forall|k: int, i: int|
            0 <= k < fs.inode_seq().len() && 0 <= i < fs.inode_seq()[k].data_blocks@.len()
                ==> !fs.sb().free_blocks@.contains(#[trigger] fs.inode_seq()[k].data_blocks@[i])
                && fs.inode_seq()[k].data_blocks@[i] < fs.sb().total_blocks,
        forall|j: int, k: int|
            0 <= j < fs.inode_seq().len() && 0 <= k < fs.inode_seq().len() && j != k
                ==> (#[trigger] fs.inode_seq()[j]).data_blocks@.disjoint(
                (#[trigger] fs.inode_seq()[k]).data_blocks@,
            ),
{
    assert forall|k: int, i: int|
        0 <= k < fs.inode_seq().len() && 0 <= i < fs.inode_seq()[k].data_blocks@.len()
            implies !fs.sb().free_blocks@.contains(#[trigger] fs.inode_seq()[k].data_blocks@[i])
            && fs.inode_seq()[k].data_blocks@[i] < fs.sb().total_blocks by {
        assert(inode_ok(fs.inode_seq()[k], fs.sb()));
    }
}

/// In every consistent state, the blocks of each inode hold its size.
pub proof fn lemma_size_fits(fs: Filesystem)
    requires
        fs.wf(),
    ensures
        forall|k: int|
            0 <= k < fs.inode_seq().len() ==> (#[trigger] fs.inode_seq()[k]).size as int
                <= fs.inode_seq()[k].data_blocks@.len() * fs.sb().block_size,
{
    assert forall|k: int| 0 <= k < fs.inode_seq().len() implies (#[trigger] fs.inode_seq()[k]).size as int
        <= fs.inode_seq()[k].data_blocks@.len() * fs.sb().block_size by {
        let i = fs.inode_seq()[k];
        assert(inode_ok(i, fs.sb()));
        let s = i.size as int;
        let b = fs.sb().block_size as int;
        assert(s <= blocks_for(i.size, fs.sb().block_size) * b) by (nonlinear_arith)
            requires
                b > 0,
                s >= 0,
                blocks_for(i.size, fs.sb().block_size) == if s % b == 0 { s / b } else { s / b + 1 },
        ;
    }
}

/// In every consistent state, live inode numbers are positive, strictly
/// increasing in order of creation, and below the next number to be issued.
pub proof fn lemma_numbers_ordered(fs: Filesystem)
    requires
        fs.wf(),
    ensures
        fs.numbers().len() == fs.inode_seq().len(),
        forall|k: int|
            0 <= k < fs.numbers().len() ==> fs.inode_seq()[k].inode_number == #[trigger] fs.numbers()[k]
                && 0 < fs.numbers()[k] < fs.next_number(),
        forall|j: int, k: int| 0 <= j < k < fs.numbers().len() ==> fs.numbers()[j] < fs.numbers()[k],
{
}

/// A number issued by `create_file` exceeds every number live before, is
/// not live before, and lies below every number issued afterwards.
pub proof fn lemma_issued_number_fresh(pre: Filesystem, post: Filesystem, name: Seq<char>, n: usize)
    requires
        pre.wf(),
        pre.creates(post, name, Ok(n)),
    ensures
        forall|k: int| 0 <= k < pre.numbers().len() ==> pre.numbers()[k] < n,
        !pre.is_live(n),
        post.is_live(n),
        n < post.next_number(),
{
    assert(post.numbers()[pre.numbers().len() as int] == n);
}

/// Creating a file under a name that is taken changes nothing: no inode
/// slot is used, no number is issued, and the directory stays as it was.
pub proof fn lemma_create_taken_name_unchanged(
    pre: Filesystem,
    post: Filesystem,
    name: Seq<char>,
    r: Result<usize, FsError>,
)
    requires
        pre.wf(),
        pre.names().contains(name),
        pre.creates(post, name, r),
    ensures
        r is Err,
        post.sb().free_inodes == pre.sb().free_inodes,
        post.numbers() == pre.numbers(),
        post.names() == pre.names(),
        post.next_number() == pre.next_number(),
{
}

/// Creating a file and then deleting it by the same name succeeds and
/// brings the superblock's counters, its free list and the namespace back
/// to what they were.
pub proof fn lemma_create_delete_round_trip(
    s0: Filesystem,
    s1: Filesystem,
    s2: Filesystem,
    name: Seq<char>,
    n: usize,
    r: Result<(), FsError>,
)
    requires
        s0.wf(),
        s0.creates(s1, name, Ok(n)),
        s1.deletes(s2, name, r),
    ensures
        r == Ok::<(), FsError>(()),
        s2.sb().free_inodes == s0.sb().free_inodes,
        s2.sb().total_inodes == s0.sb().total_inodes,
        s2.numbers() == s0.numbers(),
        s2.sb().free_blocks@ == s0.sb().free_blocks@,
        s2.names() == s0.names(),
        s2.inode_seq() == s0.inode_seq(),
{
    let last = s0.names().len() as int;
    assert(s1.names()[last] == name);
    assert(s1.names().contains(name));
    let k = s1.names().index_of(name);
    assert(k == last) by {
        if k < last {
            assert(s0.names()[k] == name);
        }
    }
    assert(s1.inode_seq()[k] == s1.inode_seq().last());
    assert(s2.names() =~= s0.names());
    assert(s2.numbers() =~= s0.numbers());
    assert(s2.inode_seq() =~= s0.inode_seq());
    assert(s2.sb().free_blocks@ =~= s0.sb().free_blocks@);
}

} // verus!
