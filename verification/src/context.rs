use crate::text::str_eq;
use vstd::pervasive::VecAdditionalExecFns;
use vstd::prelude::*;

verus! {

/// The transient key-value context of one recipe unit: every variable a
/// recipe file declared, keyed by its name.  Viewed as a map from key to
/// value; insertion keeps at most one entry per key, a later insertion
/// overwriting the earlier value.
pub struct ParseContext {
    keys: Vec<String>,
    vals: Vec<String>,
}

impl ParseContext {
    /// One value per key and no key twice.
    pub closed spec fn wf(&self) -> bool {
        &&& self.keys@.len() == self.vals@.len()
        &&& forall|i: int, j: int|
            0 <= i < j < self.keys@.len() ==> self.keys@[i]@ != self.keys@[j]@
    }

    spec fn key_at(&self, k: Seq<char>, i: int) -> bool {
        0 <= i < self.keys@.len() && self.keys@[i]@ == k
    }

    proof fn lemma_entry(&self, i: int)
        requires
            self.wf(),
            0 <= i < self.keys@.len(),
        ensures
            self@.contains_key(self.keys@[i]@),
            self@[self.keys@[i]@] == self.vals@[i]@,
    {
        let k = self.keys@[i]@;
        assert(self.key_at(k, i));
        let j = choose|j: int| self.key_at(k, j);
        if j < i {
            assert(self.keys@[j]@ != self.keys@[i]@);
        } else if j > i {
            assert(self.keys@[i]@ != self.keys@[j]@);
        }
        assert(j == i);
    }

    pub fn new() -> (r: ParseContext)
        ensures
            r.wf(),
            r@ == Map::<Seq<char>, Seq<char>>::empty(),
    {
        let r = ParseContext { keys: Vec::new(), vals: Vec::new() };
        proof {
            assert(r@ =~= Map::<Seq<char>, Seq<char>>::empty());
        }
        r
    }

    fn find_key(&self, key: &str) -> (r: Option<usize>)
        ensures
            r is Some ==> r->0 < self.keys@.len() && self.keys@[r->0 as int]@ == key@,
            r is None ==> forall|i: int| 0 <= i < self.keys@.len() ==> self.keys@[i]@ != key@,
    {
        let n = self.keys.len();
        let mut i: usize = 0;
        while i < n
            invariant
                i <= n,
                n == self.keys@.len(),
                forall|j: int| 0 <= j < i ==> self.keys@[j]@ != key@,
            decreases n - i,
        {
            if str_eq(self.keys[i].as_str(), key) {
                return Some(i);
            }
            i += 1;
        }
        None
    }

    /// The declared value of `key`, or nothing where no declaration put one in.
    pub fn get(&self, key: &str) -> (r: Option<String>)
        requires
            self.wf(),
        ensures
            r is Some <==> self@.contains_key(key@),
            r is Some ==> r->0@ == self@[key@],
    {
        match self.find_key(key) {
            Some(i) => {
                proof {
                    self.lemma_entry(i as int);
                }
                Some(self.vals[i].clone())
            },
            None => {
                proof {
                    assert(forall|i: int| !self.key_at(key@, i));
                }
                None
            },
        }
    }

    /// Declares `key` as `val`, overwriting any earlier declaration.
    pub fn insert(&mut self, key: String, val: String)
        requires
            old(self).wf(),
        ensures
            final(self).wf(),
            final(self)@ == old(self)@.insert(key@, val@),
    {
        let ghost om = old(self)@;
        match self.find_key(key.as_str()) {
            Some(i) => {
                self.vals.set(i, val);
                proof {
                    assert(self.wf());
                    assert forall|k: Seq<char>|
                        self@.contains_key(k) == om.insert(key@, val@).contains_key(k) by {
                        if k == key@ {
                            assert(self.key_at(key@, i as int));
                        }
                        assert(forall|j: int|
                            self.key_at(k, j) == old(self).key_at(k, j));
                    }
                    assert forall|k: Seq<char>| self@.contains_key(k) implies self@[k]
                        == om.insert(key@, val@)[k] by {
                        let j = choose|j: int| self.key_at(k, j);
                        self.lemma_entry(j);
                        if k == key@ {
                            if j < i as int {
                                assert(self.keys@[j]@ != self.keys@[i as int]@);
                            } else if j > i as int {
                                assert(self.keys@[i as int]@ != self.keys@[j]@);
                            }
                            assert(j == i as int);
                            assert(self@[k] == val@);
                        } else {
                            assert(self.keys@[j]@ == k);
                            assert(j != i as int);
                            old(self).lemma_entry(j);
                            assert(om.contains_key(k) && om[k] == self.vals@[j]@);
                        }
                    }
                    assert(self@ =~= om.insert(key@, val@));
                }
            },
            None => {
                let ghost kv = key@;
                self.keys.push(key);
                self.vals.push(val);
                proof {
                    let n = old(self).keys@.len() as int;
                    assert(self.keys@ =~= old(self).keys@.push(key));
                    assert forall|i: int, j: int|
                        0 <= i < j < self.keys@.len() implies self.keys@[i]@
                        != self.keys@[j]@ by {
                        if j < n {
                            assert(old(self).keys@[i]@ != old(self).keys@[j]@);
                        } else {
                            assert(self.keys@[j]@ == kv);
                            assert(old(self).keys@[i]@ != kv);
                        }
                    }
                    assert(self.wf());
                    assert forall|k: Seq<char>|
                        self@.contains_key(k) == om.insert(key@, val@).contains_key(k) by {
                        if k == kv {
                            assert(self.key_at(kv, n));
                        } else {
                            assert(forall|j: int|
                                0 <= j < n ==> self.key_at(k, j) == old(self).key_at(k, j));
                            if self@.contains_key(k) {
                                let j = choose|j: int| self.key_at(k, j);
                                assert(j != n);
                                assert(old(self).key_at(k, j));
                            }
                            if om.contains_key(k) {
                                let j = choose|j: int| old(self).key_at(k, j);
                                assert(self.key_at(k, j));
                            }
                        }
                    }
                    assert forall|k: Seq<char>| self@.contains_key(k) implies self@[k]
                        == om.insert(key@, val@)[k] by {
                        let j = choose|j: int| self.key_at(k, j);
                        self.lemma_entry(j);
                        if k == kv {
                            if j < n {
                                assert(self.keys@[j]@ != self.keys@[n]@);
                            }
                            assert(j == n);
                            assert(self@[k] == val@);
                        } else {
                            assert(j != n);
                            old(self).lemma_entry(j);
                            assert(om.contains_key(k) && om[k] == self.vals@[j]@);
                        }
                    }
                    assert(self@ =~= om.insert(key@, val@));
                }
            },
        }
    }

    /// An independent copy: what one sub-unit declares afterwards cannot leak
    /// into a sibling's copy.
    pub fn duplicate(&self) -> (r: ParseContext)
        requires
            self.wf(),
        ensures
            r.wf(),
            r@ == self@,
    {
        let mut keys: Vec<String> = Vec::new();
        let mut vals: Vec<String> = Vec::new();
        let n = self.keys.len();
        let mut i: usize = 0;
        while i < n
            invariant
                i <= n,
                n == self.keys@.len(),
                keys@.len() == i,
                forall|j: int| 0 <= j < i ==> keys@[j] == self.keys@[j],
            decreases n - i,
        {
            keys.push(self.keys[i].clone());
            i += 1;
        }
        let m = self.vals.len();
        let mut i: usize = 0;
        while i < m
            invariant
                i <= m,
                m == self.vals@.len(),
                vals@.len() == i,
                forall|j: int| 0 <= j < i ==> vals@[j] == self.vals@[j],
            decreases m - i,
        {
            vals.push(self.vals[i].clone());
            i += 1;
        }
        let r = ParseContext { keys, vals };
        proof {
            assert(r.keys@ =~= self.keys@);
            assert(r.vals@ =~= self.vals@);
            assert(r.wf());
            assert forall|k: Seq<char>| r@.contains_key(k) == self@.contains_key(k) by {
                assert(forall|i: int| r.key_at(k, i) == self.key_at(k, i));
            }
            assert forall|k: Seq<char>| r@.contains_key(k) implies r@[k] == self@[k] by {
                let j = choose|j: int| r.key_at(k, j);
                r.lemma_entry(j);
                self.lemma_entry(j);
            }
            assert(r@ =~= self@);
        }
        r
    }
}

impl View for ParseContext {
    type V = Map<Seq<char>, Seq<char>>;

    closed spec fn view(&self) -> Map<Seq<char>, Seq<char>> {
        Map::new(
            |k: Seq<char>| exists|i: int| self.key_at(k, i),
            |k: Seq<char>| self.vals@[choose|i: int| self.key_at(k, i)]@,
        )
    }
}

} // verus!
