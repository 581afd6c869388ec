//! A table from names to values.
//!
//! The entries lie in a vector in the order in which their names first
//! came; no name occurs twice.

use vstd::prelude::*;

verus! {

/// A finite map from names to values.
pub struct NameTable<V> {
    items: Vec<(String, V)>,
}

impl<V: DeepView> NameTable<V> {
    /// No name occurs twice.
    pub closed spec fn wf(&self) -> bool {
        forall|i: int, j: int|
            0 <= i < j < self.items.len() ==> self.items[i].0@ != self.items[j].0@
    }

    /// Whether the entry at `i` carries the name `k`.
    spec fn at(&self, i: int, k: Seq<char>) -> bool {
        0 <= i < self.items.len() && self.items[i].0@ == k
    }

    /// The position of the entry named `k`.
    spec fn index_of(&self, k: Seq<char>) -> int {
        choose|i: int| self.at(i, k)
    }

    /// The names of the entries, in the order in which they were entered.
    pub closed spec fn names(&self) -> Seq<Seq<char>> {
        Seq::new(self.items.len() as nat, |i: int| self.items[i].0@)
    }

    proof fn lemma_at(&self, i: int)
        requires
            self.wf(),
            0 <= i < self.items.len(),
        ensures
            self@.contains_key(self.items[i].0@),
            self.index_of(self.items[i].0@) == i,
            self@[self.items[i].0@] == self.items[i].1.deep_view(),
    {
        let k = self.items[i].0@;
        assert(self.at(i, k));
        let j = self.index_of(k);
        assert(self.at(j, k));
    }

    proof fn lemma_absent(&self, k: Seq<char>)
        requires
            forall|i: int| 0 <= i < self.items.len() ==> self.items[i].0@ != k,
        ensures
            !self@.contains_key(k),
    {
        if self@.contains_key(k) {
            let j = choose|j: int| self.at(j, k);
            assert(self.at(j, k));
        }
    }

    /// The names are exactly the keys of the map, each once.
    pub proof fn lemma_names(&self)
        requires
            self.wf(),
        ensures
            self.names().no_duplicates(),
            forall|k: Seq<char>| self.names().contains(k) <==> self@.contains_key(k),
    {
        assert forall|k: Seq<char>| self.names().contains(k) <==> self@.contains_key(k) by {
            if self.names().contains(k) {
                let i = choose|i: int| 0 <= i < self.names().len() && self.names()[i] == k;
                assert(self.at(i, k));
            }
            if self@.contains_key(k) {
                let j = choose|j: int| self.at(j, k);
                assert(self.at(j, k));
                assert(self.names()[j] == k);
            }
        }
    }

    /// An empty table.
    pub fn new() -> (t: Self)
        ensures
            t.wf(),
            t@ == Map::<Seq<char>, V::V>::empty(),
    {
        let t = NameTable { items: Vec::new() };
        assert(t@ =~= Map::<Seq<char>, V::V>::empty());
        t
    }

    /// The number of entries.
    pub fn len(&self) -> (n: usize)
        requires
            self.wf(),
        ensures
            n == self.names().len(),
            n == self@.dom().len(),
            self@.dom().finite(),
    {
        proof {
            self.lemma_names();
            self.names().unique_seq_to_set();
            assert(self.names().to_set() =~= self@.dom());
        }
        self.items.len()
    }

    /// The name of the `i`-th entry.
    pub fn name_at(&self, i: usize) -> (k: &String)
        requires
            self.wf(),
            i < self.names().len(),
        ensures
            k@ == self.names()[i as int],
            self@.contains_key(k@),
    {
        proof {
            self.lemma_at(i as int);
        }
        &self.items[i].0
    }

    /// The value of the `i`-th entry.
    pub fn value_at(&self, i: usize) -> (v: &V)
        requires
            self.wf(),
            i < self.names().len(),
        ensures
            v.deep_view() == self@[self.names()[i as int]],
    {
        proof {
            self.lemma_at(i as int);
        }
        &self.items[i].1
    }

    fn position(&self, k: &String) -> (r: Option<usize>)
        requires
            self.wf(),
        ensures
            match r {
                Some(i) => self.at(i as int, k@) && self@.contains_key(k@) && self.index_of(k@)
                    == i,
                None => !self@.contains_key(k@),
            },
    {
        let mut i: usize = 0;
        while i < self.items.len()
            invariant
                self.wf(),
                i <= self.items.len(),
                forall|j: int| 0 <= j < i ==> self.items[j].0@ != k@,
            decreases self.items.len() - i,
        {
            if self.items[i].0 == *k {
                proof {
                    self.lemma_at(i as int);
                }
                return Some(i);
            }
            i += 1;
        }
        proof {
            self.lemma_absent(k@);
        }
        None
    }

    /// Whether an entry is named `k`.
    pub fn contains(&self, k: &String) -> (b: bool)
        requires
            self.wf(),
        ensures
            b == self@.contains_key(k@),
    {
        self.position(k).is_some()
    }

    /// The value entered under `k`, if there is one.
    pub fn get(&self, k: &String) -> (r: Option<&V>)
        requires
            self.wf(),
        ensures
            match r {
                Some(v) => self@.contains_key(k@) && self@[k@] == v.deep_view(),
                None => !self@.contains_key(k@),
            },
    {
        match self.position(k) {
            Some(i) => {
                proof {
                    self.lemma_at(i as int);
                }
                Some(&self.items[i].1)
            },
            None => None,
        }
    }

    /// Enters `v` under `k`, in place of what was there before.
    pub fn insert(&mut self, k: String, v: V)
        requires
            old(self).wf(),
        ensures
            final(self).wf(),
            final(self)@ == old(self)@.insert(k@, v.deep_view()),
    {
        let ghost pre = *self;
        match self.position(&k) {
            Some(i) => {
                self.items.set(i, (k, v));
                proof {
                    let post = *self;
                    assert(post.wf());
                    assert forall|x: Seq<char>| #[trigger]
                        post@.contains_key(x) <==> pre@.insert(k@, v.deep_view()).contains_key(
                            x,
                        ) by {
                        if post@.contains_key(x) {
                            let j = choose|j: int| post.at(j, x);
                            assert(post.at(j, x));
                            assert(pre.at(j, x));
                        }
                        if pre@.contains_key(x) {
                            let j = choose|j: int| pre.at(j, x);
                            assert(pre.at(j, x));
                            assert(post.at(j, x));
                        }
                    }
                    assert forall|x: Seq<char>| #[trigger] post@.contains_key(x) implies post@[x]
                        == pre@.insert(k@, v.deep_view())[x] by {
                        let j = post.index_of(x);
                        assert(post.at(j, x));
                        post.lemma_at(j);
                        if j != i {
                            assert(pre.at(j, x));
                            pre.lemma_at(j);
                        }
                    }
                    assert(post@ =~= pre@.insert(k@, v.deep_view()));
                }
            },
            None => {
                self.items.push((k, v));
                proof {
                    let post = *self;
                    let n = pre.items.len() as int;
                    assert forall|a: int, b: int| 0 <= a < b < post.items.len() implies post.items[a].0@
                        != post.items[b].0@ by {
                        if b == n {
                            assert(pre.at(a, post.items[a].0@));
                        }
                    }
                    assert forall|x: Seq<char>| #[trigger]
                        post@.contains_key(x) <==> pre@.insert(k@, v.deep_view()).contains_key(
                            x,
                        ) by {
                        if post@.contains_key(x) {
                            let j = choose|j: int| post.at(j, x);
                            assert(post.at(j, x));
                            if j < n {
                                assert(pre.at(j, x));
                            }
                        }
                        if pre@.contains_key(x) {
                            let j = choose|j: int| pre.at(j, x);
                            assert(pre.at(j, x));
                            assert(post.at(j, x));
                        }
                        if x == k@ {
                            assert(post.at(n, x));
                        }
                    }
                    assert forall|x: Seq<char>| #[trigger] post@.contains_key(x) implies post@[x]
                        == pre@.insert(k@, v.deep_view())[x] by {
                        let j = post.index_of(x);
                        assert(post.at(j, x));
                        post.lemma_at(j);
                        if j < n {
                            assert(pre.at(j, x));
                            pre.lemma_at(j);
                        }
                    }
                    assert(post@ =~= pre@.insert(k@, v.deep_view()));
                }
            },
        }
    }

    /// Takes out the entry named `k`, if there is one.
    pub fn remove(&mut self, k: &String)
        requires
            old(self).wf(),
        ensures
            final(self).wf(),
            final(self)@ == old(self)@.remove(k@),
    {
        let ghost pre = *self;
        match self.position(k) {
            Some(i) => {
                self.items.remove(i);
                proof {
                    let post = *self;
                    assert forall|x: Seq<char>| #[trigger]
                        post@.contains_key(x) <==> pre@.remove(k@).contains_key(x) by {
                        if post@.contains_key(x) {
                            let j = choose|j: int| post.at(j, x);
                            assert(post.at(j, x));
                            if j < i {
                                assert(pre.at(j, x));
                            } else {
                                assert(pre.at(j + 1, x));
                            }
                        }
                        if pre@.contains_key(x) && x != k@ {
                            let j = choose|j: int| pre.at(j, x);
                            assert(pre.at(j, x));
                            if j < i {
                                assert(post.at(j, x));
                            } else {
                                assert(post.at(j - 1, x));
                            }
                        }
                    }
                    assert forall|x: Seq<char>| #[trigger] post@.contains_key(x) implies post@[x]
                        == pre@.remove(k@)[x] by {
                        let j = post.index_of(x);
                        assert(post.at(j, x));
                        post.lemma_at(j);
                        if j < i {
                            pre.lemma_at(j);
                        } else {
                            pre.lemma_at(j + 1);
                        }
                    }
                    assert(post@ =~= pre@.remove(k@));
                }
            },
            None => {
                assert(self@ =~= pre@.remove(k@));
            },
        }
    }
}

impl<V: DeepView> View for NameTable<V> {
    type V = Map<Seq<char>, V::V>;

    closed spec fn view(&self) -> Map<Seq<char>, V::V> {
        Map::new(
            |k: Seq<char>| exists|i: int| self.at(i, k),
            |k: Seq<char>| self.items[self.index_of(k)].1.deep_view(),
        )
    }
}

impl<V: DeepView> DeepView for NameTable<V> {
    type V = Map<Seq<char>, V::V>;

    open spec fn deep_view(&self) -> Map<Seq<char>, V::V> {
        self@
    }
}

} // verus!
