//! The set of tracked files, found by content key.

use crate::types::{FilePath, FilePathView};
use vstd::prelude::*;

verus! {

/// Whether two byte strings are the same.
pub fn bytes_eq(a: &[u8], b: &[u8]) -> (res: bool)
    ensures
        res == (a@ == b@),
{
    if a.len() != b.len() {
        return false;
    }
    let mut i: usize = 0;
    while i < a.len()
        invariant
            a@.len() == b@.len(),
            i <= a@.len(),
            forall|j: int| 0 <= j < i ==> a@[j] == b@[j],
        decreases a@.len() - i,
    {
        if a[i] != b[i] {
            return false;
        }
        i += 1;
    }
    proof {
        assert(a@ =~= b@);
    }
    true
}

/// The tracked files, each under its content key. A key names one file: a
/// file that is entered under a key that is there already takes the place of
/// the earlier one.
#[derive(Debug)]
pub struct TrackedFiles {
    keys: Vec<Vec<u8>>,
    files: Vec<FilePath>,
}

impl TrackedFiles {
    /// Each file stands beside its own content key, and no key occurs twice.
    pub closed spec fn wf(&self) -> bool {
        &&& self.keys@.len() == self.files@.len()
        &&& forall|i: int|
            0 <= i < self.keys@.len() ==> (#[trigger] self.keys@[i])@ == self.files@[i].key()
        &&& forall|i: int, j: int|
            0 <= i < j < self.keys@.len() ==> (#[trigger] self.keys@[i])@
                != (#[trigger] self.keys@[j])@
    }

    spec fn holds(&self, k: Seq<u8>, i: int) -> bool {
        0 <= i < self.keys@.len() && self.keys@[i]@ == k
    }

    /// The tracked files as a map from content key to file.
    pub closed spec fn view(&self) -> Map<Seq<u8>, FilePathView> {
        Map::new(
            |k: Seq<u8>| exists|i: int| self.holds(k, i),
            |k: Seq<u8>| self.files@[choose|i: int| self.holds(k, i)]@,
        )
    }

    /// The number of tracked files.
    pub closed spec fn count(&self) -> nat {
        self.keys@.len()
    }

    /// The content key of the `i`-th tracked file.
    pub closed spec fn key_seq(&self, i: int) -> Seq<u8> {
        self.keys@[i]@
    }

    /// The `i`-th tracked file.
    pub closed spec fn file_seq(&self, i: int) -> FilePath {
        self.files@[i]
    }

    /// Every tracked file is found in the map under its key, and every key
    /// of the map is that of one tracked file.
    pub proof fn lemma_entries(&self)
        requires
            self.wf(),
        ensures
            forall|i: int|
                0 <= i < self.count() ==> #[trigger] self.key_seq(i) == self.file_seq(i).key()
                    && self@.contains_key(self.key_seq(i)) && self@[self.key_seq(i)]
                    == self.file_seq(i)@,
            forall|k: Seq<u8>| #[trigger]
                self@.contains_key(k) ==> exists|i: int|
                    0 <= i < self.count() && self.key_seq(i) == k,
    {
        assert forall|i: int| 0 <= i < self.count() implies #[trigger] self.key_seq(i)
            == self.file_seq(i).key() && self@.contains_key(self.key_seq(i)) && self@[self.key_seq(
            i,
        )] == self.file_seq(i)@ by {
            let k = self.keys@[i]@;
            assert(self.holds(k, i));
            let c = choose|c: int| self.holds(k, c);
            assert(c == i);
        }
        assert forall|k: Seq<u8>| #[trigger] self@.contains_key(k) implies exists|i: int|
            0 <= i < self.count() && self.key_seq(i) == k by {
            let c = choose|c: int| self.holds(k, c);
            assert(self.key_seq(c) == k);
        }
    }

    /// No files.
    pub fn new() -> (res: Self)
        ensures
            res.wf(),
            res@ == Map::<Seq<u8>, FilePathView>::empty(),
            res.count() == 0,
    {
        let res = TrackedFiles { keys: Vec::new(), files: Vec::new() };
        proof {
            assert(res@ =~= Map::<Seq<u8>, FilePathView>::empty());
        }
        res
    }

    fn position(&self, key: &[u8]) -> (res: Option<usize>)
        ensures
            match res {
                Some(i) => self.holds(key@, i as int),
                None => forall|j: int| !self.holds(key@, j),
            },
    {
        let mut i: usize = 0;
        while i < self.keys.len()
            invariant
                i <= self.keys@.len(),
                forall|j: int| 0 <= j < i ==> !self.holds(key@, j),
            decreases self.keys@.len() - i,
        {
            if bytes_eq(self.keys[i].as_slice(), key) {
                return Some(i);
            }
            i += 1;
        }
        None
    }

    /// The number of tracked files.
    pub fn len(&self) -> (res: usize)
        ensures
            res == self.count(),
    {
        self.keys.len()
    }

    /// The content key of the `i`-th tracked file.
    pub fn key_at(&self, i: usize) -> (res: &Vec<u8>)
        requires
            i < self.count(),
        ensures
            res@ == self.key_seq(i as int),
    {
        &self.keys[i]
    }

    /// The `i`-th tracked file.
    pub fn file_at(&self, i: usize) -> (res: &FilePath)
        requires
            self.wf(),
            i < self.count(),
        ensures
            *res == self.file_seq(i as int),
    {
        &self.files[i]
    }

    /// The file that is tracked under the key, if there is one.
    pub fn get(&self, key: &[u8]) -> (res: Option<&FilePath>)
        requires
            self.wf(),
        ensures
            match res {
                Some(f) => self@.contains_key(key@) && self@[key@] == f@ && f.key() == key@,
                None => !self@.contains_key(key@),
            },
    {
        match self.position(key) {
            None => None,
            Some(i) => {
                proof {
                    let c = choose|c: int| self.holds(key@, c);
                    assert(c == i);
                }
                Some(&self.files[i])
            },
        }
    }

    /// Tracks the file under its content key.
    pub fn insert(&mut self, file: FilePath)
        requires
            old(self).wf(),
        ensures
            final(self).wf(),
            final(self)@ == old(self)@.insert(file.key(), file@),
    {
        let key = file.to_bytes();
        let ghost k = key@;
        let ghost fv = file@;
        let ghost fk = file.key();
        let ghost before = *self;
        match self.position(key.as_slice()) {
            Some(i) => {
                self.files.set(i, file);
                proof {
                    assert(self.files@[i as int].key() == fk);
                    assert forall|j: int| 0 <= j < self.keys@.len() implies (
                    #[trigger] self.keys@[j])@ == self.files@[j].key() by {
                        if j != i {
                            assert(self.files@[j] == before.files@[j]);
                            assert(before.keys@[j]@ == before.files@[j].key());
                        }
                    }
                }
            },
            None => {
                self.keys.push(key);
                self.files.push(file);
                proof {
                    let n = before.keys@.len() as int;
                    assert forall|j: int| 0 <= j < self.keys@.len() implies (
                    #[trigger] self.keys@[j])@ == self.files@[j].key() by {
                        if j < n {
                            assert(before.keys@[j]@ == before.files@[j].key());
                        }
                    }
                    assert forall|i: int, j: int| 0 <= i < j < self.keys@.len() implies (
                    #[trigger] self.keys@[i])@ != (#[trigger] self.keys@[j])@ by {
                        if j == n {
                            assert(!before.holds(k, i));
                        } else {
                            assert(before.keys@[i]@ != before.keys@[j]@);
                        }
                    }
                }
            },
        }
        assert(self.wf());
        proof {
            let after = *self;
            assert forall|q: Seq<u8>| after@.contains_key(q) == before@.insert(
                k,
                fv,
            ).contains_key(q) by {
                if before@.contains_key(q) {
                    let c = choose|c: int| before.holds(q, c);
                    assert(after.holds(q, c));
                }
                if q == k {
                    if exists|c: int| before.holds(k, c) {
                        let c = choose|c: int| before.holds(k, c);
                        assert(after.holds(k, c));
                    } else {
                        assert(after.holds(k, before.keys@.len() as int));
                    }
                }
                if after@.contains_key(q) && q != k {
                    let c = choose|c: int| after.holds(q, c);
                    assert(before.holds(q, c));
                }
            }
            assert forall|q: Seq<u8>| after@.contains_key(q) implies after@[q] == before@.insert(
                k,
                fv,
            )[q] by {
                let c = choose|c: int| after.holds(q, c);
                if q != k {
                    assert(before.holds(q, c));
                    let d = choose|d: int| before.holds(q, d);
                    assert(d == c);
                } else {
                    if exists|d: int| before.holds(k, d) {
                        let d = choose|d: int| before.holds(k, d);
                        assert(after.holds(k, d));
                        assert(c == d);
                    } else {
                        assert(after.holds(k, before.keys@.len() as int));
                        if c < before.keys@.len() {
                            assert(before.holds(k, c));
                        }
                        assert(c == before.keys@.len());
                    }
                }
            }
            assert(after@ =~= before@.insert(k, fv));
        }
    }
}

} // verus!
