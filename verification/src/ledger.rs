//! The pending-transfer ledger: the paths for which a change came in from a
//! peer and the local effect of applying it has not been seen yet.
//!
//! A path in the ledger means "the next change on disk at this path is the
//! echo of an inbound transfer": it must not be announced again. A path that
//! is absent means that a change on disk originated here.

use vstd::prelude::*;
use vstd::string::*;

verus! {

/// The set of paths that await their inbound apply.
#[derive(Debug)]
pub struct PendingTransferLedger {
    paths: Vec<String>,
}

impl PendingTransferLedger {
    /// No path is entered twice.
    pub closed spec fn wf(&self) -> bool {
        forall|i: int, j: int|
            0 <= i < j < self.paths@.len() ==> (#[trigger] self.paths@[i])@
                != (#[trigger] self.paths@[j])@
    }

    /// The paths in the ledger.
    pub closed spec fn view(&self) -> Set<Seq<char>> {
        Set::new(|p: Seq<char>| exists|i: int| 0 <= i < self.paths@.len() && self.paths@[i]@ == p)
    }

    /// The number of entries that the ledger holds.
    pub closed spec fn count(&self) -> nat {
        self.paths@.len()
    }

    /// A ledger without entries.
    pub fn new() -> (res: Self)
        ensures
            res.wf(),
            res@ == Set::<Seq<char>>::empty(),
            res.count() == 0,
    {
        let res = PendingTransferLedger { paths: Vec::new() };
        proof {
            assert(res@ =~= Set::<Seq<char>>::empty());
        }
        res
    }

    fn position(&self, path: &String) -> (res: Option<usize>)
        ensures
            match res {
                Some(i) => i < self.paths@.len() && self.paths@[i as int]@ == path@,
                None => forall|j: int| 0 <= j < self.paths@.len() ==> self.paths@[j]@ != path@,
            },
    {
        let mut i: usize = 0;
        while i < self.paths.len()
            invariant
                i <= self.paths@.len(),
                forall|j: int| 0 <= j < i ==> self.paths@[j]@ != path@,
            decreases self.paths@.len() - i,
        {
            if self.paths[i] == *path {
                return Some(i);
            }
            i += 1;
        }
        None
    }

    /// Whether an inbound apply is outstanding for the path.
    pub fn contains(&self, path: &String) -> (res: bool)
        ensures
            res == self@.contains(path@),
    {
        self.position(path).is_some()
    }

    /// The number of entries. An entry that stays means that a local apply
    /// was never observed.
    pub fn len(&self) -> (res: usize)
        ensures
            res == self.count(),
    {
        self.paths.len()
    }

    /// The paths that await their inbound apply, for the operator to look
    /// at: each path of the ledger once, and no other.
    pub fn pending(&self) -> (res: Vec<String>)
        ensures
            res@.len() == self.count(),
            forall|i: int| 0 <= i < res@.len() ==> self@.contains(#[trigger] res@[i]@),
            forall|p: Seq<char>|
                self@.contains(p) ==> exists|i: int| 0 <= i < res@.len() && res@[i]@ == p,
    {
        let mut out: Vec<String> = Vec::new();
        let mut i: usize = 0;
        while i < self.paths.len()
            invariant
                i <= self.paths@.len(),
                out@.len() == i,
                forall|j: int| 0 <= j < i ==> (#[trigger] out@[j])@ == self.paths@[j]@,
            decreases self.paths@.len() - i,
        {
            out.push(self.paths[i].clone());
            i += 1;
        }
        proof {
            assert forall|p: Seq<char>| self@.contains(p) implies exists|i: int|
                0 <= i < out@.len() && out@[i]@ == p by {
                let j = choose|j: int| 0 <= j < self.paths@.len() && self.paths@[j]@ == p;
                assert(out@[j]@ == p);
            }
        }
        out
    }

    /// Marks an inbound apply as outstanding for the path. Marking a path
    /// that is marked already changes nothing.
    pub fn insert(&mut self, path: String)
        requires
            old(self).wf(),
        ensures
            final(self).wf(),
            final(self)@ == old(self)@.insert(path@),
            final(self).count() == if old(self)@.contains(path@) {
                old(self).count()
            } else {
                old(self).count() + 1
            },
    {
        let ghost before = self.paths@;
        let ghost p = path@;
        if self.position(&path).is_none() {
            self.paths.push(path);
            proof {
                let after = self.paths@;
                assert forall|q: Seq<char>| #[trigger]
                    final(self)@.contains(q) <==> old(self)@.insert(p).contains(q) by {
                    if old(self)@.contains(q) {
                        let i = choose|i: int| 0 <= i < before.len() && before[i]@ == q;
                        assert(after[i]@ == q);
                    }
                    if q == p {
                        assert(after[before.len() as int]@ == q);
                    }
                    if final(self)@.contains(q) {
                        let i = choose|i: int| 0 <= i < after.len() && after[i]@ == q;
                        if i < before.len() {
                            assert(before[i]@ == q);
                        }
                    }
                }
            }
        }
        proof {
            assert(final(self)@ =~= old(self)@.insert(p));
        }
    }

    /// Clears the entry of the path, and says whether there was one.
    pub fn remove(&mut self, path: &String) -> (res: bool)
        requires
            old(self).wf(),
        ensures
            final(self).wf(),
            res == old(self)@.contains(path@),
            final(self)@ == old(self)@.remove(path@),
            final(self).count() == if res {
                old(self).count() - 1
            } else {
                old(self).count() as int
            },
    {
        let ghost before = self.paths@;
        let ghost p = path@;
        match self.position(path) {
            None => {
                proof {
                    assert(final(self)@ =~= old(self)@.remove(p));
                }
                false
            },
            Some(i) => {
                self.paths.remove(i);
                proof {
                    let after = self.paths@;
                    assert forall|q: Seq<char>| #[trigger]
                        final(self)@.contains(q) <==> old(self)@.remove(p).contains(q) by {
                        if old(self)@.contains(q) && q != p {
                            let j = choose|j: int| 0 <= j < before.len() && before[j]@ == q;
                            if j < i {
                                assert(after[j]@ == q);
                            } else {
                                assert(after[j - 1]@ == q);
                            }
                        }
                        if final(self)@.contains(q) {
                            let j = choose|j: int| 0 <= j < after.len() && after[j]@ == q;
                            if j < i {
                                assert(before[j]@ == q);
                            } else {
                                assert(before[j + 1]@ == q);
                            }
                        }
                    }
                    assert(final(self)@ =~= old(self)@.remove(p));
                }
                true
            },
        }
    }
}

} // verus!
