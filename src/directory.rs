use vstd::prelude::*;
use crate::error::FsError;

verus! {

/// One namespace: a mapping from file names to inode numbers.
///
/// Entries keep the order in which they were added; a name occurs at most
/// once. The directory does not own the inodes it names.
pub struct Directory {
    entries: Vec<(String, usize)>,
}

impl Directory {
    /// The names of the entries, in order.
    pub closed spec fn names(&self) -> Seq<Seq<char>> {
        self.entries@.map_values(|e: (String, usize)| e.0@)
    }

    /// The inode numbers of the entries, in the same order as `names`.
    pub closed spec fn numbers(&self) -> Seq<usize> {
        self.entries@.map_values(|e: (String, usize)| e.1)
    }

    /// Names are unique, and each name has its number.
    pub open spec fn wf(&self) -> bool {
        &&& self.names().no_duplicates()
        &&& self.names().len() == self.numbers().len()
    }

    /// The number bound to `name`, if any.
    pub open spec fn lookup_spec(&self, name: Seq<char>) -> Option<usize> {
        if self.names().contains(name) {
            Some(self.numbers()[self.names().index_of(name)])
        } else {
            None
        }
    }

    /// An empty directory.
    pub fn new() -> (r: Directory)
        ensures
            r.wf(),
            r.names().len() == 0,
    {
        Directory { entries: Vec::new() }
    }

    /// The position of the entry named `filename`, if there is one.
    pub fn find(&self, filename: &str) -> (r: Option<usize>)
        requires
            self.wf(),
        ensures
            match r {
                Some(p) => p < self.names().len() && self.names()[p as int] == filename@
                    && self.names().index_of(filename@) == p as int,
                None => !self.names().contains(filename@),
            },
    {
        let key = filename.to_owned();
        let mut i: usize = 0;
        while i < self.entries.len()
            invariant
                self.wf(),
                i <= self.entries@.len(),
                key@ == filename@,
                forall|j: int| 0 <= j < i ==> self.names()[j] != filename@,
            decreases self.entries@.len() - i,
        {
            if self.entries[i].0 == key {
                proof {
                    let ns = self.names();
                    assert(ns[i as int] == filename@);
                    assert(ns.contains(filename@));
                    assert(ns.index_of(filename@) == i as int) by {
                        let k = ns.index_of(filename@);
                        assert(0 <= k < ns.len() && ns[k] == filename@);
                        if k != i as int {
                            assert(ns[k] == ns[i as int]);
                        }
                    }
                }
                return Some(i);
            }
            i = i + 1;
        }
        None
    }

    /// The inode number bound to `filename`, if any.
    pub fn lookup_file(&self, filename: &str) -> (r: Option<usize>)
        requires
            self.wf(),
        ensures
            r == self.lookup_spec(filename@),
    {
        match self.find(filename) {
            Some(p) => Some(self.entries[p].1),
            None => None,
        }
    }

    /// Binds `filename` to `inode_number`; an existing name is never overwritten.
    pub fn add_file(&mut self, filename: String, inode_number: usize) -> (r: Result<(), FsError>)
        requires
            old(self).wf(),
        ensures
            final(self).wf(),
            old(self).names().contains(filename@) ==> r == Err::<(), FsError>(FsError::NameExists)
                && *final(self) == *old(self),
            !old(self).names().contains(filename@) ==> r == Ok::<(), FsError>(())
                && final(self).names() == old(self).names().push(filename@)
                && final(self).numbers() == old(self).numbers().push(inode_number),
    {
        if self.find(filename.as_str()).is_some() {
            return Err(FsError::NameExists);
        }
        let ghost name = filename@;
        self.entries.push((filename, inode_number));
        proof {
            assert(self.names() =~= old(self).names().push(name));
            assert(self.numbers() =~= old(self).numbers().push(inode_number));
        }
        Ok(())
    }

    /// Removes and returns the entry at position `p`.
    pub fn remove_at(&mut self, p: usize) -> (r: (String, usize))
        requires
            old(self).wf(),
            p < old(self).names().len(),
        ensures
            final(self).wf(),
            r.0@ == old(self).names()[p as int],
            r.1 == old(self).numbers()[p as int],
            final(self).names() == old(self).names().remove(p as int),
            final(self).numbers() == old(self).numbers().remove(p as int),
    {
        let r = self.entries.remove(p);
        proof {
            assert(self.names() =~= old(self).names().remove(p as int));
            assert(self.numbers() =~= old(self).numbers().remove(p as int));
            assert forall|a: int, b: int|
                0 <= a < b < self.names().len() implies self.names()[a] != self.names()[b] by {
                let ns = old(self).names();
                let a2 = if a < p { a } else { a + 1 };
                let b2 = if b < p { b } else { b + 1 };
                assert(self.names()[a] == ns[a2] && self.names()[b] == ns[b2]);
            }
        }
        r
    }

    /// Removes the entry named `filename` and returns the number it was bound to.
    pub fn remove_file(&mut self, filename: &str) -> (r: Result<usize, FsError>)
        requires
            old(self).wf(),
        ensures
            final(self).wf(),
            !old(self).names().contains(filename@) ==> r == Err::<usize, FsError>(
                FsError::NameNotFound,
            ) && *final(self) == *old(self),
            old(self).names().contains(filename@) ==> {
                let p = old(self).names().index_of(filename@);
                &&& r == Ok::<usize, FsError>(old(self).numbers()[p])
                &&& final(self).names() == old(self).names().remove(p)
                &&& final(self).numbers() == old(self).numbers().remove(p)
            },
    {
        match self.find(filename) {
            Some(p) => {
                let (_, n) = self.remove_at(p);
                Ok(n)
            },
            None => Err(FsError::NameNotFound),
        }
    }
}

} // verus!
