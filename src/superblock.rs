use vstd::prelude::*;
use crate::error::FsError;

verus! {

/// Global capacity ledger: inode accounting and the pool of free blocks.
///
/// Blocks are numbered `0 .. total_blocks`. The free list keeps the order in
/// which blocks became free, so that allocation, which takes from its front,
/// is a deterministic function of the ledger's state.
pub struct SuperBlock {
    /// Numbers of the live inodes.
    pub allocated_inodes: Vec<usize>,
    pub total_inodes: usize,
    pub free_inodes: usize,
    /// Bytes per block; fixed at creation.
    pub block_size: usize,
    pub total_blocks: usize,
    /// Indices of the blocks that no inode owns.
    pub free_blocks: Vec<usize>,
}

/// Whether `x` occurs among the first `end` elements of `v`.
pub open spec fn occurs_before(v: Seq<usize>, end: int, x: usize) -> bool {
    exists|j: int| 0 <= j < end && v[j] == x
}

/// Whether every index in `v` lies inside a pool of `total` blocks.
pub open spec fn all_in_range(v: Seq<usize>, total: usize) -> bool {
    forall|i: int| 0 <= i < v.len() ==> v[i] < total
}

/// Whether `v` names distinct blocks, none of them in `free`.
pub open spec fn all_owned(v: Seq<usize>, free: Seq<usize>) -> bool {
    &&& v.no_duplicates()
    &&& forall|i: int| 0 <= i < v.len() ==> !free.contains(#[trigger] v[i])
}

fn occurs_in(v: &Vec<usize>, end: usize, x: usize) -> (r: bool)
    requires
        end <= v@.len(),
    ensures
        r == occurs_before(v@, end as int, x),
{
    let mut j: usize = 0;
    while j < end
        invariant
            j <= end <= v@.len(),
            forall|k: int| 0 <= k < j ==> v@[k] != x,
        decreases end - j,
    {
        if v[j] == x {
            return true;
        }
        j = j + 1;
    }
    false
}

impl SuperBlock {
    /// The free list holds distinct indices of the pool.
    pub open spec fn pool_wf(&self) -> bool {
        &&& self.free_blocks@.no_duplicates()
        &&& all_in_range(self.free_blocks@, self.total_blocks)
    }

    /// Everything but the free list is as in `other`.
    pub open spec fn same_but_blocks(&self, other: &SuperBlock) -> bool {
        &&& self.allocated_inodes@ == other.allocated_inodes@
        &&& self.total_inodes == other.total_inodes
        &&& self.free_inodes == other.free_inodes
        &&& self.block_size == other.block_size
        &&& self.total_blocks == other.total_blocks
    }

    /// A ledger with every inode slot and every block free; the free list is
    /// `0, 1, .., total_blocks - 1`.
    pub fn new(total_inodes: usize, block_size: usize, total_blocks: usize) -> (r: SuperBlock)
        ensures
            r.pool_wf(),
            r.allocated_inodes@.len() == 0,
            r.total_inodes == total_inodes,
            r.free_inodes == total_inodes,
            r.block_size == block_size,
            r.total_blocks == total_blocks,
            r.free_blocks@.len() == total_blocks,
            forall|i: int| 0 <= i < total_blocks ==> r.free_blocks@[i] == i,
    {
        let mut free_blocks: Vec<usize> = Vec::new();
        let mut b: usize = 0;
        while b < total_blocks
            invariant
                b <= total_blocks,
                free_blocks@.len() == b,
                forall|i: int| 0 <= i < b ==> free_blocks@[i] == i,
            decreases total_blocks - b,
        {
            free_blocks.push(b);
            b = b + 1;
        }
        SuperBlock {
            allocated_inodes: Vec::new(),
            total_inodes,
            free_inodes: total_inodes,
            block_size,
            total_blocks,
            free_blocks,
        }
    }

    /// Takes the first `n` blocks of the free list, or fails with
    /// `OutOfSpace`, changing nothing, when fewer than `n` are free.
    pub fn allocate_blocks(&mut self, n: usize) -> (r: Result<Vec<usize>, FsError>)
        requires
            old(self).pool_wf(),
        ensures
            final(self).pool_wf(),
            final(self).same_but_blocks(old(self)),
            n > old(self).free_blocks@.len() ==> r == Err::<Vec<usize>, FsError>(FsError::OutOfSpace)
                && *final(self) == *old(self),
            n <= old(self).free_blocks@.len() ==> r is Ok
                && r->Ok_0@ == old(self).free_blocks@.subrange(0, n as int)
                && final(self).free_blocks@ == old(self).free_blocks@.subrange(
                n as int,
                old(self).free_blocks@.len() as int,
            ),
    {
        if n > self.free_blocks.len() {
            return Err(FsError::OutOfSpace);
        }
        let rest = self.free_blocks.split_off(n);
        let mut taken: Vec<usize> = Vec::new();
        taken.append(&mut self.free_blocks);
        self.free_blocks = rest;
        proof {
            let f = old(self).free_blocks@;
            let s = self.free_blocks@;
            assert forall|i: int, j: int|
                0 <= i < s.len() && 0 <= j < s.len() && i != j implies s[i] != s[j] by {
                assert(s[i] == f[i + n] && s[j] == f[j + n]);
            }
            assert forall|i: int| 0 <= i < s.len() implies s[i] < self.total_blocks by {
                assert(s[i] == f[i + n]);
            }
        }
        Ok(taken)
    }

    /// Returns `indices` to the free list, at its end. Fails with
    /// `InvalidIndex` when an index lies outside the pool, else with
    /// `DoubleFree` when one is already free or occurs twice; a failure
    /// changes nothing.
    pub fn release_blocks(&mut self, indices: Vec<usize>) -> (r: Result<(), FsError>)
        requires
            old(self).pool_wf(),
        ensures
            final(self).pool_wf(),
            final(self).same_but_blocks(old(self)),
            !all_in_range(indices@, old(self).total_blocks) ==> r == Err::<(), FsError>(
                FsError::InvalidIndex,
            ) && *final(self) == *old(self),
            all_in_range(indices@, old(self).total_blocks) && !all_owned(
                indices@,
                old(self).free_blocks@,
            ) ==> r == Err::<(), FsError>(FsError::DoubleFree) && *final(self) == *old(self),
            all_in_range(indices@, old(self).total_blocks) && all_owned(
                indices@,
                old(self).free_blocks@,
            ) ==> r == Ok::<(), FsError>(()) && final(self).free_blocks@ == old(
                self,
            ).free_blocks@ + indices@,
    {
        let mut i: usize = 0;
        while i < indices.len()
            invariant
                *self == *old(self),
                self.pool_wf(),
                i <= indices@.len(),
                forall|k: int| 0 <= k < i ==> indices@[k] < self.total_blocks,
            decreases indices@.len() - i,
        {
            if indices[i] >= self.total_blocks {
                return Err(FsError::InvalidIndex);
            }
            i = i + 1;
        }
        let mut i: usize = 0;
        while i < indices.len()
            invariant
                *self == *old(self),
                self.pool_wf(),
                all_in_range(indices@, self.total_blocks),
                i <= indices@.len(),
                forall|k: int| 0 <= k < i ==> !self.free_blocks@.contains(#[trigger] indices@[k]),
                forall|k: int, l: int| 0 <= l < k < i ==> indices@[k] != indices@[l],
            decreases indices@.len() - i,
        {
            let x = indices[i];
            if occurs_in(&self.free_blocks, self.free_blocks.len(), x) {
                proof {
                    let j = choose|j: int| 0 <= j < self.free_blocks@.len() && self.free_blocks@[j] == x;
                    assert(self.free_blocks@.contains(indices@[i as int]));
                }
                return Err(FsError::DoubleFree);
            }
            if occurs_in(&indices, i, x) {
                proof {
                    let l = choose|l: int| 0 <= l < i && indices@[l] == x;
                    assert(indices@[i as int] == indices@[l]);
                }
                return Err(FsError::DoubleFree);
            }
            i = i + 1;
        }
        let ghost f = self.free_blocks@;
        let ghost v = indices@;
        let mut indices = indices;
        self.free_blocks.append(&mut indices);
        proof {
            let s = self.free_blocks@;
            assert(s == f + v);
            assert forall|a: int, b: int|
                0 <= a < s.len() && 0 <= b < s.len() && a != b implies s[a] != s[b] by {
                if a >= f.len() && b < f.len() {
                    assert(f.contains(s[b]));
                    assert(s[a] == v[a - f.len()]);
                } else if a < f.len() && b >= f.len() {
                    assert(f.contains(s[a]));
                    assert(s[b] == v[b - f.len()]);
                }
            }
        }
        Ok(())
    }
}

} // verus!
