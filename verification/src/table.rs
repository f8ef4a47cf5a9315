//! A small map from names to values, kept as two parallel vectors in which
//! no name occurs twice. Its mathematical value is a `Map` from the name's
//! characters to the value's view.

use vstd::prelude::*;

verus! {

pub struct Table<V> {
    pub names: Vec<String>,
    pub values: Vec<V>,
}

/// Whether `name` is the text at index `i` of `names`.
pub open spec fn names_at(names: Seq<String>, name: Seq<char>, i: int) -> bool {
    0 <= i < names.len() && names[i]@ == name
}

/// Whether `name` occurs among `names`.
pub open spec fn names_has(names: Seq<String>, name: Seq<char>) -> bool {
    exists|i: int| names_at(names, name, i)
}

/// An index at which `name` occurs among `names`.
pub open spec fn names_index(names: Seq<String>, name: Seq<char>) -> int {
    choose|i: int| names_at(names, name, i)
}

impl<V: View> Table<V> {
    /// There is a value for every name and no name occurs twice.
    pub open spec fn wf(&self) -> bool {
        &&& self.names@.len() == self.values@.len()
        &&& forall|i: int, j: int|
            0 <= i < j < self.names@.len() ==> (#[trigger] self.names@[i])@ != (
            #[trigger] self.names@[j])@
    }

    pub fn new() -> (t: Self)
        ensures
            t.wf(),
            t@ == Map::<Seq<char>, V::V>::empty(),
    {
        let t = Table { names: Vec::new(), values: Vec::new() };
        assert(t@ =~= Map::<Seq<char>, V::V>::empty());
        t
    }

    /// The index at which `name` is kept, if it is.
    pub fn find(&self, name: &String) -> (r: Option<usize>)
        requires
            self.wf(),
        ensures
            match r {
                Some(i) => names_at(self.names@, name@, i as int) && self@.contains_key(name@)
                    && self@[name@] == self.values@[i as int]@,
                None => !self@.contains_key(name@),
            },
    {
        let mut i: usize = 0;
        while i < self.names.len()
            invariant
                i <= self.names@.len(),
                self.wf(),
                forall|j: int| 0 <= j < i ==> !names_at(self.names@, name@, j),
            decreases self.names@.len() - i,
        {
            if self.names[i] == *name {
                proof {
                    self.lemma_at(name@, i as int);
                }
                return Some(i);
            }
            i += 1;
        }
        None
    }

    /// The value kept under `name`, if there is one.
    pub fn get(&self, name: &String) -> (r: Option<&V>)
        requires
            self.wf(),
        ensures
            match r {
                Some(v) => self@.contains_key(name@) && self@[name@] == v@,
                None => !self@.contains_key(name@),
            },
    {
        match self.find(name) {
            Some(i) => Some(&self.values[i]),
            None => None,
        }
    }

    pub fn contains_key(&self, name: &String) -> (r: bool)
        requires
            self.wf(),
        ensures
            r == self@.contains_key(name@),
    {
        self.find(name).is_some()
    }

    /// Keeps `value` under `name`, in place of what was kept there before.
    pub fn insert(&mut self, name: &String, value: V)
        requires
            old(self).wf(),
        ensures
            final(self).wf(),
            final(self)@ == old(self)@.insert(name@, value@),
    {
        match self.find(name) {
            Some(i) => {
                self.values[i] = value;
                proof {
                    self.lemma_at(name@, i as int);
                    assert forall|n: Seq<char>| self@.contains_key(n) implies #[trigger] self@[n]
                        == old(self)@.insert(name@, value@)[n] by {
                        let k = names_index(self.names@, n);
                        self.lemma_at(n, k);
                        old(self).lemma_at(n, k);
                    }
                    assert(self@ =~= old(self)@.insert(name@, value@));
                }
            },
            None => {
                let ghost n0 = self.names@.len() as int;
                self.names.push(name.clone());
                self.values.push(value);
                proof {
                    let goal = old(self)@.insert(name@, value@);
                    assert forall|i: int, j: int| 0 <= i < j < self.names@.len() implies (
                    #[trigger] self.names@[i])@ != (#[trigger] self.names@[j])@ by {
                        if j == n0 {
                            assert(!names_at(old(self).names@, name@, i));
                        }
                    }
                    self.lemma_at(name@, n0);
                    assert forall|n: Seq<char>| #[trigger] self@.contains_key(n) == goal.contains_key(
                        n,
                    ) by {
                        if self@.contains_key(n) {
                            let k = names_index(self.names@, n);
                            assert(names_at(self.names@, n, k));
                            if k < n0 {
                                assert(names_at(old(self).names@, n, k));
                            }
                        }
                        if goal.contains_key(n) && n != name@ {
                            let k = names_index(old(self).names@, n);
                            assert(names_at(old(self).names@, n, k));
                            assert(names_at(self.names@, n, k));
                        }
                    }
                    assert forall|n: Seq<char>| #[trigger] self@.contains_key(n) implies self@[n]
                        == goal[n] by {
                        if n != name@ {
                            let k = names_index(old(self).names@, n);
                            assert(names_at(old(self).names@, n, k));
                            old(self).lemma_at(n, k);
                            assert(names_at(self.names@, n, k));
                            self.lemma_at(n, k);
                        }
                    }
                    assert(self@ =~= goal);
                }
            },
        }
    }

    /// In a well-formed table a name is kept at one index only, and the
    /// table's value for it is the value at that index.
    pub proof fn lemma_at(&self, name: Seq<char>, i: int)
        requires
            self.wf(),
            names_at(self.names@, name, i),
        ensures
            self@.contains_key(name),
            names_index(self.names@, name) == i,
            self@[name] == self.values@[i]@,
    {
        let k = names_index(self.names@, name);
        assert(names_at(self.names@, name, k));
        if k < i {
            assert(self.names@[k]@ != self.names@[i]@);
        } else if i < k {
            assert(self.names@[i]@ != self.names@[k]@);
        }
    }
}

impl<V: View> View for Table<V> {
    type V = Map<Seq<char>, V::V>;

    open spec fn view(&self) -> Map<Seq<char>, V::V> {
        Map::new(
            |n: Seq<char>| names_has(self.names@, n),
            |n: Seq<char>| self.values@[names_index(self.names@, n)]@,
        )
    }
}

} // verus!
