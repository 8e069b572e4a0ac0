//! The variable mapping handed to the substitution engine.
//!
//! `VarMap` keeps its entries in two parallel vectors with pairwise
//! distinct names, and is viewed as a `Map<Seq<char>, Seq<char>>`.
//! Inserting an existing name replaces its value, as a hash map would.

use vstd::prelude::*;

verus! {

/// A mapping from variable names to replacement values.
pub struct VarMap {
    keys: Vec<String>,
    vals: Vec<String>,
}

impl View for VarMap {
    type V = Map<Seq<char>, Seq<char>>;

    closed spec fn view(&self) -> Map<Seq<char>, Seq<char>> {
        Map::new(
            |k: Seq<char>| self.key_seq().contains(k),
            |k: Seq<char>|
                {
                    let i = choose|i: int|
                        0 <= i < self.key_seq().len() && self.key_seq()[i] == k;
                    self.vals@[i]@
                },
        )
    }
}

impl VarMap {
    /// The names, in insertion order.
    pub closed spec fn key_seq(self) -> Seq<Seq<char>> {
        Seq::new(self.keys@.len(), |i: int| self.keys@[i]@)
    }

    /// The entries, in insertion order, as pairs of name and value.
    pub closed spec fn pairs(self) -> Seq<(Seq<char>, Seq<char>)> {
        Seq::new(self.keys@.len(), |i: int| (self.keys@[i]@, self.vals@[i]@))
    }

    /// Well-formed: the two columns run in parallel and the names are
    /// pairwise distinct, so the mapping view loses no entry.
    pub closed spec fn wf(self) -> bool {
        self.keys@.len() == self.vals@.len() && self.key_seq().no_duplicates()
    }

    /// The entry at a position determines the view at its name.
    proof fn lemma_view_at(self, i: int)
        requires
            self.wf(),
            0 <= i < self.key_seq().len(),
        ensures
            self@.contains_key(self.key_seq()[i]),
            self@[self.key_seq()[i]] == self.vals@[i]@,
    {
        let k = self.key_seq()[i];
        assert(self.key_seq().contains(k));
        let j = choose|j: int| 0 <= j < self.key_seq().len() && self.key_seq()[j] == k;
        if j != i {
            assert(self.key_seq()[j] != self.key_seq()[i]);
            assert(false);
        }
    }

    /// How the entry list and the mapping view correspond: every entry
    /// is in the view under its name, and every mapped name stems from
    /// exactly such an entry.
    pub proof fn lemma_view_pairs(self)
        requires
            self.wf(),
        ensures
            forall|i: int|
                0 <= i < self.pairs().len() ==> self@.contains_key(
                    (#[trigger] self.pairs()[i]).0,
                ) && self@[self.pairs()[i].0] == self.pairs()[i].1,
            forall|k: Seq<char>| #[trigger]
                self@.contains_key(k) ==> exists|i: int|
                    0 <= i < self.pairs().len() && self.pairs()[i] == (k, self@[k]),
    {
        assert forall|i: int|
            0 <= i < self.pairs().len() implies self@.contains_key(
            (#[trigger] self.pairs()[i]).0,
        ) && self@[self.pairs()[i].0] == self.pairs()[i].1 by {
            self.lemma_view_at(i);
            assert(self.pairs()[i].0 == self.key_seq()[i]);
        }
        assert forall|k: Seq<char>| #[trigger]
            self@.contains_key(k) implies exists|i: int|
            0 <= i < self.pairs().len() && self.pairs()[i] == (k, self@[k]) by {
            assert(self.key_seq().contains(k));
            let i = choose|i: int| 0 <= i < self.key_seq().len() && self.key_seq()[i] == k;
            self.lemma_view_at(i);
            assert(self.pairs()[i] == (k, self@[k]));
        }
    }

    /// An empty mapping.
    pub fn new() -> (m: VarMap)
        ensures
            m.wf(),
            m@ == Map::<Seq<char>, Seq<char>>::empty(),
            m.pairs() == Seq::<(Seq<char>, Seq<char>)>::empty(),
    {
        let m = VarMap { keys: Vec::new(), vals: Vec::new() };
        proof {
            assert(m@ =~= Map::<Seq<char>, Seq<char>>::empty());
            assert(m.pairs() =~= Seq::<(Seq<char>, Seq<char>)>::empty());
        }
        m
    }

    /// The number of entries.
    pub fn len(&self) -> (n: usize)
        requires
            self.wf(),
        ensures
            n == self.pairs().len(),
            n == 0 <==> self@ == Map::<Seq<char>, Seq<char>>::empty(),
    {
        proof {
            if self.keys@.len() == 0 {
                assert(self@ =~= Map::<Seq<char>, Seq<char>>::empty());
            } else {
                self.lemma_view_at(0);
                assert(!Map::<Seq<char>, Seq<char>>::empty().contains_key(self.key_seq()[0]));
            }
        }
        self.keys.len()
    }

    /// The name of the entry at a position.
    pub fn key_at(&self, i: usize) -> (k: &String)
        requires
            self.wf(),
            i < self.pairs().len(),
        ensures
            k@ == self.pairs()[i as int].0,
    {
        &self.keys[i]
    }

    /// The value of the entry at a position.
    pub fn val_at(&self, i: usize) -> (v: &String)
        requires
            self.wf(),
            i < self.pairs().len(),
        ensures
            v@ == self.pairs()[i as int].1,
    {
        &self.vals[i]
    }

    /// Look a name up.
    pub fn get(&self, key: &str) -> (r: Option<&String>)
        requires
            self.wf(),
        ensures
            r matches Some(v) ==> self@.contains_key(key@) && v@ == self@[key@],
            r is None ==> !self@.contains_key(key@),
    {
        let key_string = key.to_owned();
        let n = self.keys.len();
        let mut idx: usize = 0;
        while idx < n
            invariant
                idx <= n,
                n == self.keys@.len(),
                self.wf(),
                key_string@ == key@,
                forall|j: int| 0 <= j < idx ==> self.key_seq()[j] != key@,
            decreases n - idx,
        {
            if self.keys[idx] == key_string {
                proof {
                    assert(self.key_seq()[idx as int] == key@);
                    self.lemma_view_at(idx as int);
                }
                return Some(&self.vals[idx]);
            }
            proof {
                assert(self.key_seq()[idx as int] != key@);
            }
            idx += 1;
        }
        proof {
            if self.key_seq().contains(key@) {
                let j = choose|j: int|
                    0 <= j < self.key_seq().len() && self.key_seq()[j] == key@;
                assert(false);
            }
            assert(!self@.contains_key(key@));
        }
        None
    }

    /// Add an entry, replacing the value of an already present name.
    pub fn insert(&mut self, key: String, value: String)
        requires
            old(self).wf(),
        ensures
            final(self).wf(),
            final(self)@ == old(self)@.insert(key@, value@),
    {
        let n = self.keys.len();
        let mut idx: usize = 0;
        while idx < n
            invariant
                idx <= n,
                n == self.keys@.len(),
                *self == *old(self),
                self.wf(),
                forall|j: int| 0 <= j < idx ==> self.key_seq()[j] != key@,
            decreases n - idx,
        {
            if self.keys[idx] == key {
                proof {
                    assert(self.key_seq()[idx as int] == key@);
                }
                let _ = self.vals.remove(idx);
                self.vals.insert(idx, value);
                proof {
                    self.lemma_replaced(*old(self), key@, value@, idx as int);
                }
                return;
            }
            proof {
                assert(self.key_seq()[idx as int] != key@);
            }
            idx += 1;
        }
        self.keys.push(key);
        self.vals.push(value);
        proof {
            self.lemma_pushed(*old(self), key@, value@);
        }
    }

    /// Replacing the value at the position of an existing name yields
    /// the inserted view.
    proof fn lemma_replaced(self, prior: VarMap, key: Seq<char>, value: Seq<char>, i: int)
        requires
            prior.wf(),
            0 <= i < prior.key_seq().len(),
            prior.key_seq()[i] == key,
            self.keys == prior.keys,
            self.vals@.len() == prior.vals@.len(),
            self.vals@[i]@ == value,
            forall|j: int| 0 <= j < self.vals@.len() && j != i ==> self.vals@[j] == prior.vals@[j],
        ensures
            self.wf(),
            self@ == prior@.insert(key, value),
    {
        assert(self.key_seq() =~= prior.key_seq());
        assert forall|k: Seq<char>|
            self@.contains_key(k) == prior@.insert(key, value).contains_key(k) by {
            if k == key {
                assert(self.key_seq().contains(k));
            }
        }
        assert forall|k: Seq<char>| self@.contains_key(k) implies self@[k] == prior@.insert(
            key,
            value,
        )[k] by {
            let j = choose|j: int| 0 <= j < self.key_seq().len() && self.key_seq()[j] == k;
            self.lemma_view_at(j);
            if k == key {
                if j != i {
                    assert(self.key_seq()[j] != self.key_seq()[i]);
                    assert(false);
                }
            } else {
                prior.lemma_view_at(j);
                assert(j != i);
            }
        }
        assert(self@ =~= prior@.insert(key, value));
    }

    /// Appending a fresh name yields the inserted view.
    proof fn lemma_pushed(self, prior: VarMap, key: Seq<char>, value: Seq<char>)
        requires
            prior.wf(),
            forall|j: int| 0 <= j < prior.key_seq().len() ==> prior.key_seq()[j] != key,
            self.keys@.len() == prior.keys@.len() + 1,
            self.vals@.len() == prior.vals@.len() + 1,
            forall|j: int| 0 <= j < prior.keys@.len() ==> self.keys@[j] == prior.keys@[j],
            forall|j: int| 0 <= j < prior.vals@.len() ==> self.vals@[j] == prior.vals@[j],
            self.keys@[prior.keys@.len() as int]@ == key,
            self.vals@[prior.vals@.len() as int]@ == value,
        ensures
            self.wf(),
            self@ == prior@.insert(key, value),
    {
        let len = prior.keys@.len() as int;
        assert(self.key_seq() =~= prior.key_seq().push(key));
        assert forall|a: int, b: int|
            0 <= a < self.key_seq().len() && 0 <= b < self.key_seq().len() && a != b
                implies self.key_seq()[a] != self.key_seq()[b] by {
            if a < len && b < len {
                assert(prior.key_seq()[a] != prior.key_seq()[b]);
            }
        }
        assert forall|k: Seq<char>|
            self@.contains_key(k) == prior@.insert(key, value).contains_key(k) by {
            if self.key_seq().contains(k) {
                let j = choose|j: int|
                    0 <= j < self.key_seq().len() && self.key_seq()[j] == k;
                if j < len {
                    assert(prior.key_seq().contains(k));
                }
            }
            if k == key {
                assert(self.key_seq()[len] == key);
                assert(self.key_seq().contains(k));
            }
            if prior@.contains_key(k) {
                let j = choose|j: int|
                    0 <= j < prior.key_seq().len() && prior.key_seq()[j] == k;
                assert(self.key_seq()[j] == k);
                assert(self.key_seq().contains(k));
            }
        }
        assert forall|k: Seq<char>| self@.contains_key(k) implies self@[k] == prior@.insert(
            key,
            value,
        )[k] by {
            let j = choose|j: int| 0 <= j < self.key_seq().len() && self.key_seq()[j] == k;
            self.lemma_view_at(j);
            if k == key {
                if j != len {
                    assert(self.key_seq()[j] != self.key_seq()[len]);
                    assert(false);
                }
            } else {
                assert(j != len);
                prior.lemma_view_at(j);
            }
        }
        assert(self@ =~= prior@.insert(key, value));
    }
}

} // verus!
