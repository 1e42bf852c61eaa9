//! The table of calls in flight, keyed by name, behind duplicate
//! suppression: a caller that finds its name in the table joins that call
//! instead of starting a new one.

use vstd::prelude::*;

verus! {

/// One call in flight and its name.
pub struct Entry<C> {
    key: String,
    call: C,
}

/// Calls in flight, at most one per name.
pub struct Group<C> {
    entries: Vec<Entry<C>>,
}

impl<C> Group<C> {
    /// The table as a map from names to calls.
    pub closed spec fn view(&self) -> Map<Seq<char>, C> {
        Map::new(
            |k: Seq<char>| exists|i: int| 0 <= i < self.entries@.len() && self.entries@[i].key@ == k,
            |k: Seq<char>|
                self.entries@[choose|i: int| 0 <= i < self.entries@.len() && self.entries@[i].key@ == k].call,
        )
    }

    /// Names occur at most once.
    pub closed spec fn wf(&self) -> bool {
        forall|i: int, j: int|
            0 <= i < self.entries@.len() && 0 <= j < self.entries@.len() && i != j
                ==> self.entries@[i].key@ != self.entries@[j].key@
    }

    /// The position of `k`, when present.
    spec fn pos(&self, k: Seq<char>) -> int {
        choose|i: int| 0 <= i < self.entries@.len() && self.entries@[i].key@ == k
    }

    proof fn lemma_pos(&self, i: int)
        requires
            self.wf(),
            0 <= i < self.entries@.len(),
        ensures
            self.pos(self.entries@[i].key@) == i,
            self@.contains_key(self.entries@[i].key@),
            self@[self.entries@[i].key@] == self.entries@[i].call,
    {
    }

    /// An empty table.
    pub fn new() -> (g: Self)
        ensures
            g.wf(),
            g@ == Map::<Seq<char>, C>::empty(),
    {
        let g = Group { entries: Vec::new() };
        proof {
            assert(g@ =~= Map::<Seq<char>, C>::empty());
        }
        g
    }

    /// Where `key` is, if present.
    fn find(&self, key: &str) -> (r: Option<usize>)
        requires
            self.wf(),
        ensures
            match r {
                Some(i) => i < self.entries@.len() && self.entries@[i as int].key@ == key@,
                None => !self@.contains_key(key@),
            },
    {
        let k = key.to_owned();
        let mut i: usize = 0;
        while i < self.entries.len()
            invariant
                i <= self.entries@.len(),
                k@ == key@,
                forall|j: int| 0 <= j < i ==> self.entries@[j].key@ != key@,
            decreases self.entries@.len() - i,
        {
            if self.entries[i].key == k {
                return Some(i);
            }
            i = i + 1;
        }
        None
    }

    /// The call in flight under `key`, if any.
    pub fn get(&self, key: &str) -> (r: Option<&C>)
        requires
            self.wf(),
        ensures
            match r {
                Some(c) => self@.contains_key(key@) && *c == self@[key@],
                None => !self@.contains_key(key@),
            },
    {
        match self.find(key) {
            Some(i) => {
                proof {
                    self.lemma_pos(i as int);
                }
                Some(&self.entries[i].call)
            },
            None => None,
        }
    }

    /// Decides the role of a caller with `key`: when no call is in flight
    /// under that name, `fresh` is put in flight and the caller leads it
    /// (true); otherwise the table is unchanged and the caller joins the call
    /// in flight (false).
    pub fn lead(&mut self, key: &str, fresh: C) -> (lead: bool)
        requires
            old(self).wf(),
        ensures
            final(self).wf(),
            lead == !old(self)@.contains_key(key@),
            final(self)@ == if lead {
                old(self)@.insert(key@, fresh)
            } else {
                old(self)@
            },
    {
        match self.find(key) {
            Some(i) => {
                proof {
                    self.lemma_pos(i as int);
                }
                false
            },
            None => {
                self.insert(key, fresh);
                true
            },
        }
    }

    /// Puts `call` in flight under `key`, replacing the call that was there.
    pub fn insert(&mut self, key: &str, call: C)
        requires
            old(self).wf(),
        ensures
            final(self).wf(),
            final(self)@ == old(self)@.insert(key@, call),
    {
        let ghost pre = *self;
        match self.find(key) {
            Some(i) => {
                let entry = Entry { key: key.to_owned(), call };
                self.entries.set(i, entry);
                proof {
                    assert forall|k: Seq<char>| #[trigger] self@.contains_key(k) == pre@.insert(key@, call).contains_key(k) by {
                        if exists|j: int| 0 <= j < pre.entries@.len() && pre.entries@[j].key@ == k {
                            let j = choose|j: int| 0 <= j < pre.entries@.len() && pre.entries@[j].key@ == k;
                            assert(self.entries@[j].key@ == k);
                        }
                    }
                    assert forall|k: Seq<char>| self@.contains_key(k) implies #[trigger] self@[k] == pre@.insert(key@, call)[k] by {
                        let j = self.pos(k);
                        self.lemma_pos(j);
                        if k != key@ {
                            pre.lemma_pos(j);
                        }
                    }
                    assert(self@ =~= pre@.insert(key@, call));
                }
            },
            None => {
                let entry = Entry { key: key.to_owned(), call };
                self.entries.push(entry);
                proof {
                    let n = pre.entries@.len() as int;
                    assert forall|k: Seq<char>| #[trigger] self@.contains_key(k) == pre@.insert(key@, call).contains_key(k) by {
                        if exists|j: int| 0 <= j < pre.entries@.len() && pre.entries@[j].key@ == k {
                            let j = choose|j: int| 0 <= j < pre.entries@.len() && pre.entries@[j].key@ == k;
                            assert(self.entries@[j].key@ == k);
                        }
                        if k == key@ {
                            assert(self.entries@[n].key@ == k);
                        }
                    }
                    assert forall|k: Seq<char>| self@.contains_key(k) implies #[trigger] self@[k] == pre@.insert(key@, call)[k] by {
                        let j = self.pos(k);
                        self.lemma_pos(j);
                        if j < n {
                            pre.lemma_pos(j);
                        }
                    }
                    assert(self@ =~= pre@.insert(key@, call));
                }
            },
        }
    }

    /// Forgets the call under `key`, so that the next call with that name
    /// starts a new one. Returns whether there was one.
    pub fn forgot(&mut self, key: &str) -> (found: bool)
        requires
            old(self).wf(),
        ensures
            final(self).wf(),
            found == old(self)@.contains_key(key@),
            final(self)@ == old(self)@.remove(key@),
    {
        let ghost pre = *self;
        match self.find(key) {
            Some(i) => {
                self.entries.remove(i);
                proof {
                    assert forall|k: Seq<char>| #[trigger] self@.contains_key(k) == pre@.remove(key@).contains_key(k) by {
                        if exists|j: int| 0 <= j < pre.entries@.len() && pre.entries@[j].key@ == k {
                            let j = choose|j: int| 0 <= j < pre.entries@.len() && pre.entries@[j].key@ == k;
                            if j < i {
                                assert(self.entries@[j].key@ == k);
                            } else if j > i {
                                assert(self.entries@[j - 1].key@ == k);
                            }
                        }
                        if exists|j: int| 0 <= j < self.entries@.len() && self.entries@[j].key@ == k {
                            let j = choose|j: int| 0 <= j < self.entries@.len() && self.entries@[j].key@ == k;
                            if j < i {
                                assert(pre.entries@[j].key@ == k);
                            } else {
                                assert(pre.entries@[j + 1].key@ == k);
                            }
                        }
                    }
                    assert forall|k: Seq<char>| self@.contains_key(k) implies #[trigger] self@[k] == pre@.remove(key@)[k] by {
                        let j = self.pos(k);
                        self.lemma_pos(j);
                        if j < i {
                            pre.lemma_pos(j);
                        } else {
                            pre.lemma_pos(j + 1);
                        }
                    }
                    assert(self@ =~= pre@.remove(key@));
                }
                true
            },
            None => {
                proof {
                    assert(pre@.remove(key@) =~= pre@);
                }
                false
            },
        }
    }
}

} // verus!
