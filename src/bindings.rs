//! A finite map from names to values, with at most one binding per name.

use vstd::prelude::*;

verus! {

/// The map that inserting the pairs in order gives: a later pair of a name
/// replaces an earlier one.
pub open spec fn pairs_map<V>(s: Seq<(String, V)>) -> Map<Seq<char>, V>
    decreases s.len(),
{
    if s.len() == 0 {
        Map::empty()
    } else {
        pairs_map(s.drop_last()).insert(s.last().0@, s.last().1)
    }
}

/// Name-to-value bindings; binding a name again replaces its value.
#[derive(Debug)]
pub struct Bindings<V> {
    entries: Vec<(String, V)>,
}

impl<V> Bindings<V> {
    /// No name is bound twice.
    pub closed spec fn wf(&self) -> bool {
        forall|i: int, j: int|
            0 <= i < self.entries@.len() && 0 <= j < self.entries@.len() && i != j
                ==> #[trigger] self.entries@[i].0@ != #[trigger] self.entries@[j].0@
    }

    /// The name of the `i`-th binding.
    pub closed spec fn key_at(&self, i: int) -> Seq<char> {
        self.entries@[i].0@
    }

    /// The value of the `i`-th binding.
    pub closed spec fn value_at(&self, i: int) -> V {
        self.entries@[i].1
    }

    /// The number of bindings.
    pub closed spec fn size(&self) -> nat {
        self.entries@.len()
    }

    /// The bindings as a map from names to values.
    pub closed spec fn view(&self) -> Map<Seq<char>, V> {
        Map::new(
            |k: Seq<char>| exists|i: int| 0 <= i < self.entries@.len() && self.entries@[i].0@ == k,
            |k: Seq<char>|
                self.entries@[choose|i: int|
                    0 <= i < self.entries@.len() && self.entries@[i].0@ == k].1,
        )
    }

    /// The `i`-th binding is the one of its name.
    pub proof fn lemma_entry(&self, i: int)
        requires
            self.wf(),
            0 <= i < self.size(),
        ensures
            self@.contains_key(self.key_at(i)),
            self@[self.key_at(i)] == self.value_at(i),
    {
        let k = self.entries@[i].0@;
        assert(exists|j: int| 0 <= j < self.entries@.len() && self.entries@[j].0@ == k);
        let j = choose|j: int| 0 <= j < self.entries@.len() && self.entries@[j].0@ == k;
        assert(i == j);
    }

    /// Every bound name is the name of some binding.
    pub proof fn lemma_key(&self, k: Seq<char>)
        requires
            self@.contains_key(k),
        ensures
            exists|i: int| 0 <= i < self.size() && self.key_at(i) == k,
    {
        let i = choose|i: int| 0 <= i < self.entries@.len() && self.entries@[i].0@ == k;
        assert(self.key_at(i) == k);
    }

    pub fn new() -> (r: Self)
        ensures
            r.wf(),
            r@ == Map::<Seq<char>, V>::empty(),
    {
        let r = Bindings { entries: Vec::new() };
        assert(r@ =~= Map::<Seq<char>, V>::empty());
        r
    }

    /// Bindings made by inserting the pairs in order.
    pub fn from_pairs(pairs: Vec<(String, V)>) -> (r: Self)
        ensures
            r.wf(),
            r@ == pairs_map(pairs@),
    {
        let ghost all = pairs@;
        let mut r = Bindings::new();
        let mut pairs = pairs;
        while pairs.len() > 0
            invariant
                r.wf(),
                pairs_map(all) == pairs_map(pairs@).union_prefer_right(r@),
            decreases pairs.len(),
        {
            let ghost before = pairs@;
            let (k, v) = pairs.pop().unwrap();
            proof {
                assert(before.drop_last() =~= pairs@);
                assert(pairs_map(before) == pairs_map(pairs@).insert(k@, v));
            }
            let ghost r0 = r@;
            if r.get(&k).is_none() {
                r.insert(k, v);
                proof {
                    assert(pairs_map(pairs@).insert(k@, v).union_prefer_right(r0) =~= pairs_map(
                        pairs@,
                    ).union_prefer_right(r@));
                }
            } else {
                proof {
                    assert(pairs_map(pairs@).insert(k@, v).union_prefer_right(r0) =~= pairs_map(
                        pairs@,
                    ).union_prefer_right(r@));
                }
            }
        }
        assert(pairs_map(pairs@) =~= Map::<Seq<char>, V>::empty());
        assert(pairs_map(all) =~= r@);
        r
    }

    pub fn len(&self) -> (r: usize)
        ensures
            r == self.size(),
    {
        self.entries.len()
    }

    fn find(&self, k: &String) -> (r: Option<usize>)
        requires
            self.wf(),
        ensures
            match r {
                Some(i) => i < self.size() && self.key_at(i as int) == k@,
                None => !self@.contains_key(k@),
            },
    {
        let mut i: usize = 0;
        while i < self.entries.len()
            invariant
                i <= self.entries@.len(),
                forall|j: int| 0 <= j < i ==> self.entries@[j].0@ != k@,
            decreases self.entries@.len() - i,
        {
            if self.entries[i].0 == *k {
                return Some(i);
            }
            i = i + 1;
        }
        None
    }

    /// The value bound to `k`, if any.
    pub fn get(&self, k: &String) -> (r: Option<&V>)
        requires
            self.wf(),
        ensures
            match r {
                Some(v) => self@.contains_key(k@) && *v == self@[k@],
                None => !self@.contains_key(k@),
            },
    {
        match self.find(k) {
            Some(i) => {
                proof {
                    self.lemma_entry(i as int);
                }
                Some(&self.entries[i].1)
            },
            None => None,
        }
    }

    /// The value of the `i`-th binding.
    pub fn value(&self, i: usize) -> (r: &V)
        requires
            i < self.size(),
        ensures
            *r == self.value_at(i as int),
    {
        &self.entries[i].1
    }

    /// Binds `k` to `v`, replacing an earlier value of `k`.
    pub fn insert(&mut self, k: String, v: V)
        requires
            old(self).wf(),
        ensures
            final(self).wf(),
            final(self)@ == old(self)@.insert(k@, v),
    {
        let ghost kv = k@;
        match self.find(&k) {
            Some(i) => {
                self.entries.set(i, (k, v));
                proof {
                    assert forall|j: int| 0 <= j < self.entries@.len() implies self.entries@[j].0@
                        == old(self).entries@[j].0@ by {}
                    self.lemma_entry(i as int);
                    assert forall|key: Seq<char>| #[trigger]
                        self@.contains_key(key) == old(self)@.insert(kv, v).contains_key(key) by {
                        if old(self)@.contains_key(key) {
                            let j = choose|j: int|
                                0 <= j < old(self).entries@.len() && old(self).entries@[j].0@
                                    == key;
                            assert(self.entries@[j].0@ == key);
                        }
                        if self@.contains_key(key) {
                            let j = choose|j: int|
                                0 <= j < self.entries@.len() && self.entries@[j].0@ == key;
                            assert(old(self).entries@[j].0@ == key);
                        }
                    }
                    assert forall|key: Seq<char>| #[trigger]
                        self@.contains_key(key) implies self@[key] == old(self)@.insert(
                        kv,
                        v,
                    )[key] by {
                        if key != kv {
                            let j = choose|j: int|
                                0 <= j < self.entries@.len() && self.entries@[j].0@ == key;
                            self.lemma_entry(j);
                            old(self).lemma_entry(j);
                        }
                    }
                    assert(self@ =~= old(self)@.insert(kv, v));
                }
            },
            None => {
                self.entries.push((k, v));
                proof {
                    let n = old(self).entries@.len() as int;
                    assert(self.entries@[n].0@ == kv);
                    self.lemma_entry(n);
                    assert forall|key: Seq<char>| #[trigger]
                        self@.contains_key(key) == old(self)@.insert(kv, v).contains_key(key) by {
                        if old(self)@.contains_key(key) {
                            let j = choose|j: int|
                                0 <= j < old(self).entries@.len() && old(self).entries@[j].0@
                                    == key;
                            assert(self.entries@[j].0@ == key);
                        }
                        if self@.contains_key(key) && key != kv {
                            let j = choose|j: int|
                                0 <= j < self.entries@.len() && self.entries@[j].0@ == key;
                            assert(old(self).entries@[j].0@ == key);
                        }
                    }
                    assert forall|key: Seq<char>| #[trigger]
                        self@.contains_key(key) implies self@[key] == old(self)@.insert(
                        kv,
                        v,
                    )[key] by {
                        if key != kv {
                            let j = choose|j: int|
                                0 <= j < self.entries@.len() && self.entries@[j].0@ == key;
                            self.lemma_entry(j);
                            old(self).lemma_entry(j);
                        }
                    }
                    assert(self@ =~= old(self)@.insert(kv, v));
                }
            },
        }
    }
}

} // verus!
