//! A small string-keyed table held as a vector of distinct keys, viewed as a finite map.
use vstd::prelude::*;

verus! {

/// No key occurs twice among the slots.
pub open spec fn keys_distinct<T>(s: Seq<(Seq<char>, T)>) -> bool {
    forall|i: int, j: int|
        #![trigger s[i], s[j]]
        0 <= i < s.len() && 0 <= j < s.len() && i != j ==> s[i].0 != s[j].0
}

/// The map that a sequence of slots denotes (a later slot wins over an earlier one).
pub open spec fn map_of<T>(s: Seq<(Seq<char>, T)>) -> Map<Seq<char>, T>
    decreases s.len(),
{
    if s.len() == 0 {
        Map::empty()
    } else {
        map_of(s.drop_last()).insert(s.last().0, s.last().1)
    }
}

/// Keeps the entries of `m` whose value satisfies `pred`.
pub open spec fn keep_matching<T>(m: Map<Seq<char>, T>, pred: spec_fn(T) -> bool) -> Map<Seq<char>, T> {
    Map::new(|k: Seq<char>| m.contains_key(k) && pred(m[k]), |k: Seq<char>| m[k])
}

/// What `map_of` holds of slots with distinct keys: its domain is the set of slot keys, each
/// key maps to its slot's value, and it has one entry per slot.
pub proof fn lemma_map_of<T>(s: Seq<(Seq<char>, T)>)
    requires
        keys_distinct(s),
    ensures
        map_of(s).dom().finite(),
        map_of(s).len() == s.len(),
        forall|k: Seq<char>|
            #![trigger map_of(s).dom().contains(k)]
            map_of(s).dom().contains(k) <==> exists|i: int| 0 <= i < s.len() && s[i].0 == k,
        forall|i: int| #![trigger s[i]] 0 <= i < s.len() ==> map_of(s)[s[i].0] == s[i].1,
    decreases s.len(),
{
    if s.len() > 0 {
        let p = s.drop_last();
        assert(keys_distinct(p)) by {
            assert forall|i: int, j: int|
                0 <= i < p.len() && 0 <= j < p.len() && i != j implies p[i].0 != p[j].0 by {
                assert(p[i] == s[i] && p[j] == s[j]);
            }
        }
        lemma_map_of(p);
        let last = s.last();
        assert(!map_of(p).dom().contains(last.0)) by {
            if map_of(p).dom().contains(last.0) {
                let i = choose|i: int| 0 <= i < p.len() && p[i].0 == last.0;
                assert(s[i] == p[i]);
                assert(s[s.len() - 1] == last);
            }
        }
        assert forall|k: Seq<char>|
            map_of(s).dom().contains(k) <==> exists|i: int| 0 <= i < s.len() && s[i].0 == k by {
            if map_of(s).dom().contains(k) {
                if k == last.0 {
                    assert(s[s.len() - 1].0 == k);
                } else {
                    let i = choose|i: int| 0 <= i < p.len() && p[i].0 == k;
                    assert(s[i] == p[i]);
                }
            }
            if exists|i: int| 0 <= i < s.len() && s[i].0 == k {
                let i = choose|i: int| 0 <= i < s.len() && s[i].0 == k;
                if i < s.len() - 1 {
                    assert(p[i] == s[i]);
                }
            }
        }
        assert forall|i: int| #![trigger s[i]] 0 <= i < s.len() implies map_of(s)[s[i].0] == s[i].1 by {
            if i < s.len() - 1 {
                assert(p[i] == s[i]);
                assert(s[i].0 != last.0) by {
                    assert(s[s.len() - 1] == last);
                }
            }
        }
    }
}

/// A table from string keys to values; no key occurs twice.
pub struct KeyedTable<T> {
    entries: Vec<(String, T)>,
}

impl<T> View for KeyedTable<T> {
    type V = Map<Seq<char>, T>;

    closed spec fn view(&self) -> Map<Seq<char>, T> {
        map_of(self.slots())
    }
}

impl<T> KeyedTable<T> {
    /// The slots in storage order, each key taken by its view.
    pub closed spec fn slots(&self) -> Seq<(Seq<char>, T)> {
        self.entries@.map_values(|e: (String, T)| (e.0@, e.1))
    }

    /// Well-formedness: the keys are distinct.
    pub closed spec fn wf(&self) -> bool {
        keys_distinct(self.slots())
    }

    /// Relates the map view to the slots.
    pub proof fn lemma_view(&self)
        requires
            self.wf(),
        ensures
            self@.dom().finite(),
            self@.len() == self.slots().len(),
            forall|k: Seq<char>|
                #![trigger self@.dom().contains(k)]
                self@.dom().contains(k) <==> exists|i: int|
                    0 <= i < self.slots().len() && self.slots()[i].0 == k,
            forall|i: int|
                #![trigger self.slots()[i]]
                0 <= i < self.slots().len() ==> self@[self.slots()[i].0] == self.slots()[i].1,
    {
        lemma_map_of(self.slots());
    }
}


impl<T: Copy> KeyedTable<T> {
    /// An empty table.
    pub fn new() -> (t: Self)
        ensures
            t.wf(),
            t@ == Map::<Seq<char>, T>::empty(),
            t.slots().len() == 0,
    {
        let t = KeyedTable { entries: Vec::new() };
        assert(t.slots() =~= Seq::<(Seq<char>, T)>::empty());
        t
    }

    /// Number of entries.
    pub fn len(&self) -> (n: usize)
        requires
            self.wf(),
        ensures
            n == self@.len(),
            n == self.slots().len(),
    {
        proof {
            self.lemma_view();
        }
        self.entries.len()
    }

    /// The key stored in slot `i`.
    pub fn key_at(&self, i: usize) -> (k: &String)
        requires
            i < self.slots().len(),
        ensures
            k@ == self.slots()[i as int].0,
    {
        &self.entries[i].0
    }

    /// The value stored in slot `i`.
    pub fn value_at(&self, i: usize) -> (v: T)
        requires
            i < self.slots().len(),
        ensures
            v == self.slots()[i as int].1,
    {
        self.entries[i].1
    }

    /// The slot holding `key`, if any.
    pub fn find(&self, key: &String) -> (r: Option<usize>)
        requires
            self.wf(),
        ensures
            match r {
                Some(i) => i < self.slots().len() && self.slots()[i as int].0 == key@,
                None => !self@.dom().contains(key@),
            },
    {
        proof {
            self.lemma_view();
        }
        let n = self.entries.len();
        let mut i: usize = 0;
        while i < n
            invariant
                n == self.slots().len(),
                i <= n,
                forall|j: int| 0 <= j < i ==> self.slots()[j].0 != key@,
            decreases n - i,
        {
            if self.entries[i].0 == *key {
                return Some(i);
            }
            i = i + 1;
        }
        None
    }

    /// The value stored under `key`, if any.
    pub fn get(&self, key: &String) -> (r: Option<T>)
        requires
            self.wf(),
        ensures
            r == (if self@.dom().contains(key@) {
                Some(self@[key@])
            } else {
                None::<T>
            }),
    {
        proof {
            self.lemma_view();
        }
        match self.find(key) {
            Some(i) => Some(self.entries[i].1),
            None => None,
        }
    }

    /// Replaces the value in slot `i`, keeping its key.
    pub fn set_at(&mut self, i: usize, v: T)
        requires
            old(self).wf(),
            i < old(self).slots().len(),
        ensures
            final(self).wf(),
            final(self).slots() == old(self).slots().update(
                i as int,
                (old(self).slots()[i as int].0, v),
            ),
            final(self)@ == old(self)@.insert(old(self).slots()[i as int].0, v),
    {
        let ghost s0 = self.slots();
        let k = self.entries[i].0.clone();
        self.entries.set(i, (k, v));
        let ghost s1 = self.slots();
        assert(s1 =~= s0.update(i as int, (s0[i as int].0, v)));
        assert(keys_distinct(s1)) by {
            assert forall|a: int, b: int|
                0 <= a < s1.len() && 0 <= b < s1.len() && a != b implies s1[a].0 != s1[b].0 by {
                assert(s1[a].0 == s0[a].0 && s1[b].0 == s0[b].0);
            }
        }
        proof {
            lemma_map_of(s0);
            lemma_map_of(s1);
            let want = map_of(s0).insert(s0[i as int].0, v);
            assert forall|k: Seq<char>| #[trigger] map_of(s1).dom().contains(k) <==> want.dom().contains(k) by {
                if map_of(s1).dom().contains(k) {
                    let j = choose|j: int| 0 <= j < s1.len() && s1[j].0 == k;
                    assert(s0[j].0 == k);
                }
                if want.dom().contains(k) && k != s0[i as int].0 {
                    let j = choose|j: int| 0 <= j < s0.len() && s0[j].0 == k;
                    assert(s1[j].0 == k);
                }
                if k == s0[i as int].0 {
                    assert(s1[i as int].0 == k);
                }
            }
            assert forall|k: Seq<char>| #[trigger] map_of(s1).dom().contains(k) implies map_of(s1)[k] == want[k] by {
                let j = choose|j: int| 0 <= j < s1.len() && s1[j].0 == k;
                assert(map_of(s1)[s1[j].0] == s1[j].1);
                if j != i {
                    assert(map_of(s0)[s0[j].0] == s0[j].1);
                    assert(s0[j].0 != s0[i as int].0);
                }
            }
            assert(map_of(s1) =~= want);
        }
    }

    /// Stores `v` under `key`, replacing any value stored there before.
    pub fn insert(&mut self, key: String, v: T)
        requires
            old(self).wf(),
        ensures
            final(self).wf(),
            final(self)@ == old(self)@.insert(key@, v),
    {
        match self.find(&key) {
            Some(i) => {
                self.set_at(i, v);
            },
            None => {
                let ghost s0 = self.slots();
                let ghost kv = key@;
                self.entries.push((key, v));
                let ghost s1 = self.slots();
                assert(s1 =~= s0.push((kv, v)));
                proof {
                    lemma_map_of(s0);
                    assert(keys_distinct(s1)) by {
                        assert forall|a: int, b: int|
                            0 <= a < s1.len() && 0 <= b < s1.len() && a != b implies s1[a].0
                                != s1[b].0 by {
                            if a < s0.len() && b < s0.len() {
                                assert(s1[a] == s0[a] && s1[b] == s0[b]);
                            } else if a < s0.len() {
                                assert(s1[a] == s0[a]);
                            } else {
                                assert(s1[b] == s0[b]);
                            }
                        }
                    }
                    assert(s1.drop_last() =~= s0);
                }
            },
        }
    }

    /// Removes the entry in slot `i`.
    pub fn remove_at(&mut self, i: usize)
        requires
            old(self).wf(),
            i < old(self).slots().len(),
        ensures
            final(self).wf(),
            final(self)@ == old(self)@.remove(old(self).slots()[i as int].0),
    {
        let ghost s0 = self.slots();
        let _ = self.entries.remove(i);
        let ghost s1 = self.slots();
        assert(s1 =~= s0.remove(i as int));
        proof {
            assert(forall|j: int| 0 <= j < s1.len() ==> #[trigger] s1[j] == (if j < i { s0[j] } else { s0[j + 1] }));
            assert(keys_distinct(s1)) by {
                assert forall|a: int, b: int|
                    0 <= a < s1.len() && 0 <= b < s1.len() && a != b implies s1[a].0 != s1[b].0 by {
                    let a0 = if a < i { a } else { a + 1 };
                    let b0 = if b < i { b } else { b + 1 };
                    assert(s1[a] == s0[a0] && s1[b] == s0[b0]);
                }
            }
            lemma_map_of(s0);
            lemma_map_of(s1);
            let kr = s0[i as int].0;
            let want = map_of(s0).remove(kr);
            assert forall|k: Seq<char>| #[trigger] map_of(s1).dom().contains(k) <==> want.dom().contains(k) by {
                if map_of(s1).dom().contains(k) {
                    let j = choose|j: int| 0 <= j < s1.len() && s1[j].0 == k;
                    let j0 = if j < i { j } else { j + 1 };
                    assert(s1[j] == s0[j0]);
                    assert(s0[j0].0 != s0[i as int].0);
                }
                if want.dom().contains(k) {
                    let j0 = choose|j: int| 0 <= j < s0.len() && s0[j].0 == k;
                    assert(j0 != i);
                    let j = if j0 < i { j0 } else { j0 - 1 };
                    assert(s1[j] == s0[j0]);
                }
            }
            assert forall|k: Seq<char>| #[trigger] map_of(s1).dom().contains(k) implies map_of(s1)[k] == want[k] by {
                let j = choose|j: int| 0 <= j < s1.len() && s1[j].0 == k;
                let j0 = if j < i { j } else { j + 1 };
                assert(s1[j] == s0[j0]);
                assert(map_of(s1)[s1[j].0] == s1[j].1);
                assert(map_of(s0)[s0[j0].0] == s0[j0].1);
            }
            assert(map_of(s1) =~= want);
        }
    }

    /// Keeps exactly the entries whose slot is marked in `keep`, where the mark of a slot is
    /// `pred` of its value.
    pub fn retain_marked(&mut self, keep: &Vec<bool>, Ghost(pred): Ghost<spec_fn(T) -> bool>)
        requires
            old(self).wf(),
            keep@.len() == old(self).slots().len(),
            forall|i: int|
                0 <= i < keep@.len() ==> #[trigger] keep@[i] == pred(old(self).slots()[i].1),
        ensures
            final(self).wf(),
            final(self)@ == keep_matching(old(self)@, pred),
    {
        let ghost s0 = self.slots();
        let n = self.entries.len();
        let mut kept: Vec<(String, T)> = Vec::new();
        let ghost mut idx: Seq<int> = Seq::empty();
        let mut i: usize = 0;
        while i < n
            invariant
                n == s0.len(),
                s0 == self.slots(),
                keys_distinct(s0),
                keep@.len() == n,
                i <= n,
                idx.len() == kept@.len(),
                forall|j: int|
                    #![trigger idx[j]]
                    0 <= j < idx.len() ==> 0 <= idx[j] < i && keep@[idx[j]] && kept@[j].0@
                        == s0[idx[j]].0 && kept@[j].1 == s0[idx[j]].1,
                forall|a: int, b: int|
                    #![trigger idx[a], idx[b]]
                    0 <= a < b < idx.len() ==> idx[a] < idx[b],
                forall|m: int|
                    0 <= m < i && #[trigger] keep@[m] ==> exists|j: int|
                        0 <= j < idx.len() && idx[j] == m,
            decreases n - i,
        {
            let ghost idx0 = idx;
            if keep[i] {
                let k = self.entries[i].0.clone();
                let v = self.entries[i].1;
                kept.push((k, v));
                proof {
                    idx = idx.push(i as int);
                    assert(idx[idx.len() - 1] == i as int);
                }
            }
            proof {
                assert forall|m: int| 0 <= m < i + 1 && #[trigger] keep@[m] implies exists|j: int|
                    0 <= j < idx.len() && idx[j] == m by {
                    if m == i {
                        assert(idx[idx.len() - 1] == m);
                    } else {
                        let j = choose|j: int| 0 <= j < idx0.len() && idx0[j] == m;
                        assert(idx[j] == idx0[j]);
                    }
                }
            }
            i = i + 1;
        }
        self.entries = kept;
        let ghost s1 = self.slots();
        proof {
            assert forall|j: int| 0 <= j < s1.len() implies #[trigger] s1[j] == s0[idx[j]] by {
                assert(s1[j] == (kept@[j].0@, kept@[j].1));
            }
            assert(keys_distinct(s1)) by {
                assert forall|a: int, b: int|
                    0 <= a < s1.len() && 0 <= b < s1.len() && a != b implies s1[a].0 != s1[b].0 by {
                    assert(s1[a] == s0[idx[a]] && s1[b] == s0[idx[b]]);
                    if a < b {
                        assert(idx[a] < idx[b]);
                    } else {
                        assert(idx[b] < idx[a]);
                    }
                }
            }
            lemma_map_of(s0);
            lemma_map_of(s1);
            let want = keep_matching(map_of(s0), pred);
            assert forall|k: Seq<char>| #[trigger] map_of(s1).dom().contains(k) <==> want.dom().contains(k) by {
                if map_of(s1).dom().contains(k) {
                    let j = choose|j: int| 0 <= j < s1.len() && s1[j].0 == k;
                    assert(s1[j] == s0[idx[j]]);
                    assert(map_of(s0)[s0[idx[j]].0] == s0[idx[j]].1);
                    assert(keep@[idx[j]]);
                }
                if want.dom().contains(k) {
                    let m = choose|m: int| 0 <= m < s0.len() && s0[m].0 == k;
                    assert(map_of(s0)[s0[m].0] == s0[m].1);
                    assert(keep@[m]);
                    let j = choose|j: int| 0 <= j < idx.len() && idx[j] == m;
                    assert(s1[j] == s0[idx[j]]);
                }
            }
            assert forall|k: Seq<char>| #[trigger] map_of(s1).dom().contains(k) implies map_of(s1)[k] == want[k] by {
                let j = choose|j: int| 0 <= j < s1.len() && s1[j].0 == k;
                assert(s1[j] == s0[idx[j]]);
                assert(map_of(s1)[s1[j].0] == s1[j].1);
                assert(map_of(s0)[s0[idx[j]].0] == s0[idx[j]].1);
            }
            assert(map_of(s1) =~= want);
        }
    }
}

} // verus!
