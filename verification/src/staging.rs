//! Staging operations: the two persistent module sets and the primitives
//! that move module directories between them.
//!
//! A `DirSet` models one of the two on-disk locations (installed or
//! update-pending) as a map from module id to module directory.
//! `delete_dir` removes a directory and is a no-op when it is absent;
//! `move_dir` relocates a directory, deleting any directory already at the
//! destination first (last writer wins, no merge).

use vstd::prelude::*;

use crate::fstree::ModuleDir;
use crate::strutil::str_eq;

verus! {

/// A named set of module directories, keyed by module id.
pub struct DirSet {
    entries: Vec<(String, ModuleDir)>,
}

/// The map described by an entry list.
pub open spec fn dir_map_of(entries: Seq<(String, ModuleDir)>) -> Map<Seq<char>, ModuleDir>
    decreases entries.len(),
{
    if entries.len() == 0 {
        Map::empty()
    } else {
        dir_map_of(entries.drop_last()).insert(entries.last().0@, entries.last().1)
    }
}

impl View for DirSet {
    type V = Map<Seq<char>, ModuleDir>;

    closed spec fn view(&self) -> Map<Seq<char>, ModuleDir> {
        dir_map_of(self.entries@)
    }
}

proof fn lemma_dir_map_found(entries: Seq<(String, ModuleDir)>, i: int)
    requires
        0 <= i < entries.len(),
        forall|j: int| i < j < entries.len() ==> (#[trigger] entries[j]).0@ != entries[i].0@,
    ensures
        dir_map_of(entries).dom().contains(entries[i].0@),
        dir_map_of(entries)[entries[i].0@] == entries[i].1,
    decreases entries.len(),
{
    if i < entries.len() - 1 {
        assert(entries.drop_last()[i] == entries[i]);
        assert(forall|j: int|
            i < j < entries.drop_last().len() ==> (#[trigger] entries.drop_last()[j]).0@
                != entries.drop_last()[i].0@);
        lemma_dir_map_found(entries.drop_last(), i);
    }
}

proof fn lemma_dir_map_absent(entries: Seq<(String, ModuleDir)>, key: Seq<char>)
    requires
        forall|j: int| 0 <= j < entries.len() ==> (#[trigger] entries[j]).0@ != key,
    ensures
        !dir_map_of(entries).dom().contains(key),
    decreases entries.len(),
{
    if entries.len() > 0 {
        assert(forall|j: int|
            0 <= j < entries.drop_last().len() ==> (#[trigger] entries.drop_last()[j]).0@ != key);
        lemma_dir_map_absent(entries.drop_last(), key);
    }
}

proof fn lemma_dir_map_remove(entries: Seq<(String, ModuleDir)>, i: int)
    requires
        0 <= i < entries.len(),
        forall|j: int|
            0 <= j < entries.len() && j != i ==> (#[trigger] entries[j]).0@ != entries[i].0@,
    ensures
        dir_map_of(entries.remove(i)) == dir_map_of(entries).remove(entries[i].0@),
    decreases entries.len(),
{
    let k = entries[i].0@;
    if i == entries.len() - 1 {
        assert(entries.remove(i) =~= entries.drop_last());
        assert(forall|j: int|
            0 <= j < entries.drop_last().len() ==> (#[trigger] entries.drop_last()[j]).0@ != k);
        lemma_dir_map_absent(entries.drop_last(), k);
        assert(dir_map_of(entries.drop_last()).insert(k, entries[i].1).remove(k) =~= dir_map_of(
            entries.drop_last(),
        ));
    } else {
        let pre = entries.drop_last();
        assert(pre[i] == entries[i]);
        assert(forall|j: int|
            0 <= j < pre.len() && j != i ==> (#[trigger] pre[j]).0@ != pre[i].0@);
        lemma_dir_map_remove(pre, i);
        assert(entries.remove(i).drop_last() =~= pre.remove(i));
        assert(entries.remove(i).last() == entries.last());
        assert(entries.last().0@ != k);
        assert(dir_map_of(pre).remove(k).insert(entries.last().0@, entries.last().1) =~= dir_map_of(
            pre,
        ).insert(entries.last().0@, entries.last().1).remove(k));
    }
}

impl DirSet {
    /// Keys in storage order.
    pub closed spec fn key_seq(&self) -> Seq<Seq<char>> {
        Seq::new(self.entries@.len(), |i: int| self.entries@[i].0@)
    }

    /// Number of module directories in the set.
    pub open spec fn spec_len(&self) -> nat {
        self.key_seq().len()
    }

    /// Each module id occurs at most once.
    pub closed spec fn wf(&self) -> bool {
        forall|i: int, j: int|
            0 <= i < j < self.entries@.len() ==> (#[trigger] self.entries@[i]).0@ != (
            #[trigger] self.entries@[j]).0@
    }

    pub fn new() -> (r: DirSet)
        ensures
            r.wf(),
            r@ == Map::<Seq<char>, ModuleDir>::empty(),
            r.spec_len() == 0,
    {
        DirSet { entries: Vec::new() }
    }

    fn find_index(&self, name: &str) -> (r: Option<usize>)
        ensures
            match r {
                Some(i) => i < self.entries@.len() && self.entries@[i as int].0@ == name@,
                None => forall|j: int|
                    0 <= j < self.entries@.len() ==> (#[trigger] self.entries@[j]).0@ != name@,
            },
    {
        let n = self.entries.len();
        let mut i: usize = 0;
        while i < n
            invariant
                0 <= i <= n,
                n == self.entries@.len(),
                forall|j: int| 0 <= j < i ==> (#[trigger] self.entries@[j]).0@ != name@,
            decreases n - i,
        {
            if str_eq(self.entries[i].0.as_str(), name) {
                return Some(i);
            }
            i = i + 1;
        }
        None
    }

    /// Whether the set holds a directory named `name`.
    pub fn contains(&self, name: &str) -> (r: bool)
        requires
            self.wf(),
        ensures
            r == self@.dom().contains(name@),
    {
        match self.find_index(name) {
            Some(i) => {
                proof {
                    lemma_dir_map_found(self.entries@, i as int);
                }
                true
            },
            None => {
                proof {
                    lemma_dir_map_absent(self.entries@, name@);
                }
                false
            },
        }
    }

    /// The directory named `name`, if present.
    pub fn get<'a>(&'a self, name: &str) -> (r: Option<&'a ModuleDir>)
        requires
            self.wf(),
        ensures
            match r {
                Some(m) => self@.dom().contains(name@) && *m == self@[name@],
                None => !self@.dom().contains(name@),
            },
    {
        match self.find_index(name) {
            Some(i) => {
                proof {
                    lemma_dir_map_found(self.entries@, i as int);
                }
                Some(&self.entries[i].1)
            },
            None => {
                proof {
                    lemma_dir_map_absent(self.entries@, name@);
                }
                None
            },
        }
    }

    /// Remove and return the directory named `name`, if present.
    pub fn take(&mut self, name: &str) -> (r: Option<(String, ModuleDir)>)
        requires
            old(self).wf(),
        ensures
            final(self).wf(),
            match r {
                Some(p) => old(self)@.dom().contains(name@) && p.0@ == name@ && p.1 == old(self)@[name@] && final(self)@ == old(self)@.remove(name@) && final(self).spec_len()
                    == old(self).spec_len() - 1,
                None => !old(self)@.dom().contains(name@) && final(self)@ == old(self)@ && final(self).spec_len() == old(self).spec_len(),
            },
    {
        match self.find_index(name) {
            None => {
                proof {
                    lemma_dir_map_absent(self.entries@, name@);
                }
                None
            },
            Some(i) => {
                proof {
                    lemma_dir_map_found(self.entries@, i as int);
                    lemma_dir_map_remove(self.entries@, i as int);
                }
                let ghost pre = self.entries@;
                let p = self.entries.remove(i);
                proof {
                    assert forall|a: int, b: int|
                        0 <= a < b < self.entries@.len() implies (#[trigger] self.entries@[a]).0@
                        != (#[trigger] self.entries@[b]).0@ by {
                        let a0 = if a < i { a } else { a + 1 };
                        let b0 = if b < i { b } else { b + 1 };
                        assert(self.entries@[a] == pre[a0]);
                        assert(self.entries@[b] == pre[b0]);
                    }
                }
                Some(p)
            },
        }
    }

    /// Put `dir` in the set under `name`, replacing any directory already
    /// there.
    pub fn insert(&mut self, name: String, dir: ModuleDir)
        requires
            old(self).wf(),
        ensures
            final(self).wf(),
            final(self)@ == old(self)@.insert(name@, dir),
            final(self).spec_len() == if old(self)@.dom().contains(name@) {
                old(self).spec_len()
            } else {
                old(self).spec_len() + 1
            },
    {
        let _ = self.take(name.as_str());
        proof {
            assert forall|j: int| 0 <= j < self.entries@.len() implies (
            #[trigger] self.entries@[j]).0@ != name@ by {
                if self.entries@[j].0@ == name@ {
                    lemma_dir_map_found(self.entries@, j);
                }
            }
        }
        let ghost mid = self.entries@;
        self.entries.push((name, dir));
        proof {
            assert(self.entries@.drop_last() =~= mid);
            assert(final(self)@ =~= old(self)@.insert(name@, dir));
        }
    }

    /// The module id at position `i`, in storage order.
    pub fn key_at<'a>(&'a self, i: usize) -> (r: &'a String)
        requires
            self.wf(),
            i < self.spec_len(),
        ensures
            r@ == self.key_seq()[i as int],
            self@.dom().contains(r@),
    {
        proof {
            lemma_dir_map_found(self.entries@, i as int);
        }
        &self.entries[i].0
    }

    /// The module directory at position `i`, in storage order.
    pub fn dir_at<'a>(&'a self, i: usize) -> (r: &'a ModuleDir)
        requires
            self.wf(),
            i < self.spec_len(),
        ensures
            self@.dom().contains(self.key_seq()[i as int]),
            *r == self@[self.key_seq()[i as int]],
    {
        proof {
            lemma_dir_map_found(self.entries@, i as int);
        }
        &self.entries[i].1
    }

    /// Number of module directories in the set.
    pub fn len(&self) -> (r: usize)
        ensures
            r == self.spec_len(),
    {
        self.entries.len()
    }

    /// A well-formed set's keys are exactly its ids, without duplicates.
    pub proof fn lemma_keys(&self)
        requires
            self.wf(),
        ensures
            self.key_seq().no_duplicates(),
            forall|k: Seq<char>| #[trigger]
                self@.dom().contains(k) <==> self.key_seq().contains(k),
    {
        assert forall|k: Seq<char>| #[trigger] self@.dom().contains(k) implies self.key_seq()
            .contains(k) by {
            if forall|j: int| 0 <= j < self.entries@.len() ==> (#[trigger] self.entries@[j]).0@
                != k {
                lemma_dir_map_absent(self.entries@, k);
            } else {
                let j = choose|j: int|
                    0 <= j < self.entries@.len() && (#[trigger] self.entries@[j]).0@ == k;
                assert(self.key_seq()[j] == k);
            }
        }
        assert forall|k: Seq<char>| self.key_seq().contains(k) implies #[trigger] self@.dom()
            .contains(k) by {
            let j = choose|j: int| 0 <= j < self.key_seq().len() && self.key_seq()[j] == k;
            lemma_dir_map_found(self.entries@, j);
        }
    }
}

/// Why a staging move could not be carried out.
#[derive(Debug)]
pub enum StagingError {
    SourceMissing,
}

/// Recursively delete the directory named `name` from `set`; deleting an
/// absent directory is a no-op and succeeds.
pub fn delete_dir(set: &mut DirSet, name: &str)
    requires
        old(set).wf(),
    ensures
        final(set).wf(),
        final(set)@ == old(set)@.remove(name@),
        !old(set)@.dom().contains(name@) ==> final(set)@ == old(set)@,
        final(set).spec_len() == if old(set)@.dom().contains(name@) {
            old(set).spec_len() - 1
        } else {
            old(set).spec_len() as int
        },
{
    let r = set.take(name);
    proof {
        if r is None {
            assert(old(set)@.remove(name@) =~= old(set)@);
        }
    }
}

/// Move the directory named `src_name` in `src` to `dst_name` in `dst`.
/// Any directory already at the destination is deleted first: afterwards
/// the destination holds exactly the source's prior contents and the source
/// no longer holds it.  Fails, changing nothing, when the source is absent.
pub fn move_dir(src: &mut DirSet, src_name: &str, dst: &mut DirSet, dst_name: &str) -> (r: Result<
    (),
    StagingError,
>)
    requires
        old(src).wf(),
        old(dst).wf(),
    ensures
        final(src).wf(),
        final(dst).wf(),
        old(src)@.dom().contains(src_name@) ==> r is Ok && final(src)@ == old(src)@.remove(
            src_name@,
        ) && final(dst)@ == old(dst)@.insert(dst_name@, old(src)@[src_name@]) && final(src).spec_len() == old(src).spec_len() - 1 && final(dst).spec_len() == if old(dst)@.dom().contains(dst_name@) {
            old(dst).spec_len()
        } else {
            old(dst).spec_len() + 1
        },
        !old(src)@.dom().contains(src_name@) ==> r is Err && final(src)@ == old(src)@ && final(dst)@ == old(dst)@ && final(src).spec_len() == old(src).spec_len() && final(dst).spec_len()
            == old(dst).spec_len(),
{
    match src.take(src_name) {
        Some(p) => {
            dst.insert(dst_name.to_owned(), p.1);
            Ok(())
        },
        None => Err(StagingError::SourceMissing),
    }
}

} // verus!
