//! The entry store: a mapping from local directory path to the ordered list
//! of remote entries remembered for that directory.

use vstd::prelude::*;

use crate::config::{RemoteEntry, RemoteEntryModel};
use crate::text::str_eq;

verus! {

/// The ordered entry list remembered for one local directory.
pub struct DirEntries {
    pub dir: String,
    pub entries: Vec<RemoteEntry>,
}

/// Mapping from absolute local directory path to its ordered entry list.
///
/// Held as a vector of pairs whose directory keys are unique; viewed as a
/// mathematical map from the directory's characters to the entry models.
pub struct RemoteMap {
    pub dirs: Vec<DirEntries>,
}

impl View for RemoteMap {
    type V = Map<Seq<char>, Seq<RemoteEntryModel>>;

    open spec fn view(&self) -> Map<Seq<char>, Seq<RemoteEntryModel>> {
        Map::new(
            |d: Seq<char>| self.has_dir(d),
            |d: Seq<char>| self.dirs@[self.idx_of(d)].entries.deep_view(),
        )
    }
}

impl RemoteMap {
    /// Directory keys are unique, so the vector really is a mapping.
    pub open spec fn wf(&self) -> bool {
        forall|i: int, j: int|
            0 <= i < j < self.dirs@.len() ==> self.dirs@[i].dir@ != self.dirs@[j].dir@
    }

    pub open spec fn has_dir(&self, d: Seq<char>) -> bool {
        exists|i: int| 0 <= i < self.dirs@.len() && self.dirs@[i].dir@ == d
    }

    pub open spec fn idx_of(&self, d: Seq<char>) -> int {
        choose|i: int| 0 <= i < self.dirs@.len() && self.dirs@[i].dir@ == d
    }

    /// The position of a directory key determines the looked-up value.
    pub proof fn lemma_dir_at(&self, i: int)
        requires
            self.wf(),
            0 <= i < self.dirs@.len(),
        ensures
            self@.dom().contains(self.dirs@[i].dir@),
            self@[self.dirs@[i].dir@] == self.dirs@[i].entries.deep_view(),
            self.idx_of(self.dirs@[i].dir@) == i,
    {
        let d = self.dirs@[i].dir@;
        assert(self.has_dir(d));
        let j = self.idx_of(d);
        assert(0 <= j < self.dirs@.len() && self.dirs@[j].dir@ == d);
        if i != j {
            assert(false);
        }
    }

    pub fn new() -> (r: RemoteMap)
        ensures
            r.wf(),
            r@ =~= Map::<Seq<char>, Seq<RemoteEntryModel>>::empty(),
    {
        let r = RemoteMap { dirs: Vec::new() };
        proof {
            assert(forall|d: Seq<char>| !r.has_dir(d));
        }
        r
    }

    /// The position of the directory's pair, if one is stored.
    fn find(&self, d: &str) -> (r: Option<usize>)
        ensures
            match r {
                Some(i) => i < self.dirs@.len() && self.dirs@[i as int].dir@ == d@,
                None => !self.has_dir(d@),
            },
    {
        let mut i: usize = 0;
        while i < self.dirs.len()
            invariant
                i <= self.dirs@.len(),
                forall|k: int| 0 <= k < i ==> self.dirs@[k].dir@ != d@,
            decreases self.dirs@.len() - i,
        {
            if str_eq(self.dirs[i].dir.as_str(), d) {
                return Some(i);
            }
            i = i + 1;
        }
        None
    }

    pub fn contains_key(&self, d: &str) -> (r: bool)
        ensures
            r == self@.dom().contains(d@),
    {
        match self.find(d) {
            Some(i) => {
                proof {
                    assert(self.has_dir(d@));
                }
                true
            },
            None => false,
        }
    }

    /// The entry list stored for a directory.
    pub fn get(&self, d: &str) -> (r: Option<&Vec<RemoteEntry>>)
        requires
            self.wf(),
        ensures
            match r {
                Some(v) => self@.dom().contains(d@) && v.deep_view() == self@[d@],
                None => !self@.dom().contains(d@),
            },
    {
        match self.find(d) {
            Some(i) => {
                proof {
                    self.lemma_dir_at(i as int);
                }
                Some(&self.dirs[i].entries)
            },
            None => None,
        }
    }

    /// Stores an entry list for a directory, replacing any list stored before.
    pub fn insert(&mut self, d: String, es: Vec<RemoteEntry>)
        requires
            old(self).wf(),
        ensures
            final(self).wf(),
            final(self)@ =~= old(self)@.insert(d@, es.deep_view()),
    {
        let ghost pre = *self;
        let ghost esv = es.deep_view();
        match self.find(d.as_str()) {
            Some(i) => {
                self.dirs[i] = DirEntries { dir: d, entries: es };
                proof {
                    assert(forall|k: int|
                        0 <= k < self.dirs@.len() ==> self.dirs@[k].dir@ == pre.dirs@[k].dir@);
                    assert(self.wf());
                    assert forall|x: Seq<char>| #[trigger] self@.dom().contains(x)
                        == pre@.insert(d@, esv).dom().contains(x) by {
                        if pre.has_dir(x) {
                            let k = pre.idx_of(x);
                            assert(self.dirs@[k].dir@ == x);
                        }
                        if self.has_dir(x) {
                            let k = self.idx_of(x);
                            assert(pre.dirs@[k].dir@ == x);
                        }
                    }
                    assert forall|x: Seq<char>| self@.dom().contains(x)
                        implies self@[x] == pre@.insert(d@, esv)[x] by {
                        let k = self.idx_of(x);
                        assert(0 <= k < self.dirs@.len() && self.dirs@[k].dir@ == x);
                        self.lemma_dir_at(k);
                        if x == d@ {
                            assert(k == i as int);
                        } else {
                            assert(k != i as int);
                            pre.lemma_dir_at(k);
                        }
                    }
                    assert(self@ =~= pre@.insert(d@, esv));
                }
            },
            None => {
                self.dirs.push(DirEntries { dir: d, entries: es });
                proof {
                    let n = pre.dirs@.len() as int;
                    assert(self.dirs@[n].dir@ == d@);
                    assert(forall|k: int| 0 <= k < n ==> self.dirs@[k].dir@ == pre.dirs@[k].dir@);
                    assert(self.wf());
                    assert forall|x: Seq<char>| #[trigger] self@.dom().contains(x)
                        == pre@.insert(d@, esv).dom().contains(x) by {
                        if pre.has_dir(x) {
                            let k = pre.idx_of(x);
                            assert(self.dirs@[k].dir@ == x);
                        }
                        if self.has_dir(x) && x != d@ {
                            let k = self.idx_of(x);
                            assert(k != n);
                            assert(pre.dirs@[k].dir@ == x);
                        }
                    }
                    assert forall|x: Seq<char>| self@.dom().contains(x)
                        implies self@[x] == pre@.insert(d@, esv)[x] by {
                        let k = self.idx_of(x);
                        assert(0 <= k < self.dirs@.len() && self.dirs@[k].dir@ == x);
                        self.lemma_dir_at(k);
                        if x == d@ {
                            assert(k == n);
                        } else {
                            assert(k != n);
                            pre.lemma_dir_at(k);
                        }
                    }
                    assert(self@ =~= pre@.insert(d@, esv));
                }
            },
        }
    }
}

} // verus!
