//! Collects one result from each of a fixed number of sources, then hands
//! them out by source name.

use vstd::prelude::*;
use crate::error::WrapError;
use crate::wg::WaitGroup;

verus! {

/// The error stored for a source whose function panicked.
pub open spec fn panic_text() -> Seq<char> {
    "function of user panic"@
}

/// The error returned for a name that no source has.
pub open spec fn missing_text() -> Seq<char> {
    "key doesn't exist"@
}

/// `r` is what is stored for a source whose function gave `outcome`: the
/// function's result, or the panic error when it panicked (`None`).
pub open spec fn stores<R>(outcome: Option<Result<R, WrapError>>, r: Result<R, WrapError>) -> bool {
    match outcome {
        Some(x) => r == x,
        None => r matches Err(e) && e.0@ == panic_text(),
    }
}

/// The result stored for a function that gave `outcome`: the function's
/// result, or the panic error when it panicked (`None`).
pub fn outcome_result<R>(outcome: Option<Result<R, WrapError>>) -> (r: Result<R, WrapError>)
    ensures
        stores(outcome, r),
{
    match outcome {
        Some(r) => r,
        None => Err(WrapError("function of user panic".to_owned())),
    }
}

/// The first position of `k` among the first `n` names, if any.
pub open spec fn first_key(keys: Seq<Seq<char>>, n: int, k: Seq<char>) -> Option<int> {
    if exists|i: int| 0 <= i < n && keys[i] == k {
        Some(choose|i: int| 0 <= i < n && keys[i] == k && forall|j: int| 0 <= j < i ==> keys[j] != k)
    } else {
        None
    }
}

/// The position that `get` looks at for `k` holds exactly the name `k`, no
/// earlier position does, and there is none exactly when no name among the
/// first `n` equals `k`.
pub proof fn law_first_key(keys: Seq<Seq<char>>, n: int, k: Seq<char>)
    requires
        0 <= n <= keys.len(),
    ensures
        first_key(keys, n, k) matches Some(i) ==> 0 <= i < n && keys[i] == k && forall|j: int|
            0 <= j < i ==> keys[j] != k,
        first_key(keys, n, k) is None <==> forall|i: int| 0 <= i < n ==> keys[i] != k,
{
    if exists|i: int| 0 <= i < n && keys[i] == k {
        let w = choose|i: int| 0 <= i < n && keys[i] == k;
        lemma_first_index_exists(keys, n, k, w);
    }
}

/// When `k` occurs among the first `n` names, a first occurrence exists.
proof fn lemma_first_index_exists(keys: Seq<Seq<char>>, n: int, k: Seq<char>, w: int)
    requires
        0 <= w < n,
        keys[w] == k,
    ensures
        exists|i: int| 0 <= i < n && keys[i] == k && forall|j: int| 0 <= j < i ==> keys[j] != k,
    decreases w,
{
    if exists|j: int| 0 <= j < w && keys[j] == k {
        let v = choose|j: int| 0 <= j < w && keys[j] == k;
        lemma_first_index_exists(keys, n, k, v);
    } else {
        assert(forall|j: int| 0 <= j < w ==> keys[j] != k);
    }
}

/// A source added under a name that no earlier source has is the one that
/// `get` finds under that name, however many sources are added after it.
pub proof fn law_get_after_add(keys: Seq<Seq<char>>, n: int, m: int, k: Seq<char>)
    requires
        0 <= n < m <= keys.len(),
        keys[n] == k,
        forall|i: int| 0 <= i < n ==> keys[i] != k,
    ensures
        first_key(keys, m, k) == Some(n),
{
    let c = choose|i: int| 0 <= i < m && keys[i] == k && forall|j: int| 0 <= j < i ==> keys[j] != k;
    assert(c == n) by {
        if c < n {
        }
    }
}

/// One source: its name and, once added, its result.
pub struct Call<R> {
    key: String,
    result: Option<Result<R, WrapError>>,
}

impl<R> Call<R> {
    /// A source with an empty name and no result yet.
    pub fn new() -> (c: Self)
        ensures
            c.key()@ == Seq::<char>::empty(),
            c.result() is None,
    {
        Call { key: String::new(), result: None }
    }

    /// The name.
    pub closed spec fn key(&self) -> String {
        self.key
    }

    /// The result, once added.
    pub closed spec fn result(&self) -> Option<Result<R, WrapError>> {
        self.result
    }
}

/// Collects the results of a fixed number of sources.
pub struct Group<R> {
    calls: Vec<Call<R>>,
    index: u32,
    wg: WaitGroup,
}

fn fresh_calls<R>(n: u32) -> (calls: Vec<Call<R>>)
    ensures
        calls@.len() == n,
        forall|i: int| 0 <= i < n ==> (#[trigger] calls@[i]).result() is None,
{
    let mut calls: Vec<Call<R>> = Vec::new();
    let mut i: u32 = 0;
    while i < n
        invariant
            i <= n,
            calls@.len() == i,
            forall|j: int| 0 <= j < i ==> (#[trigger] calls@[j]).result() is None,
        decreases n - i,
    {
        calls.push(Call::new());
        i = i + 1;
    }
    calls
}

impl<R> Group<R> {
    /// The number of sources.
    pub closed spec fn size(&self) -> int {
        self.calls@.len() as int
    }

    /// How many sources were added so far.
    pub closed spec fn added(&self) -> int {
        self.index as int
    }

    /// The names of the sources, in order of adding.
    pub closed spec fn keys(&self) -> Seq<Seq<char>> {
        self.calls@.map_values(|c: Call<R>| c.key()@)
    }

    /// The results of the sources, in order of adding.
    pub closed spec fn results(&self) -> Seq<Option<Result<R, WrapError>>> {
        self.calls@.map_values(|c: Call<R>| c.result())
    }

    /// How many sources are still to be added.
    pub closed spec fn pending(&self) -> int {
        self.wg.count()
    }

    /// Well-formedness.
    pub closed spec fn wf(&self) -> bool {
        &&& self.calls@.len() <= u32::MAX
        &&& self.index <= self.calls@.len()
        &&& self.wg.count() == self.calls@.len() - self.index
        &&& forall|i: int|
            self.index <= i < self.calls@.len() ==> (#[trigger] self.calls@[i]).result() is None
    }

    /// A group that waits for `n` sources.
    pub fn new(n: u32) -> (g: Self)
        ensures
            g.wf(),
            g.size() == n,
            g.added() == 0,
            g.pending() == n,
            g.keys().len() == n,
            g.results().len() == n,
    {
        Group { calls: fresh_calls(n), index: 0, wg: WaitGroup::new(n) }
    }

    /// Records the next source under `key` with the outcome of its function
    /// (`None` when the function panicked). Returns true when it was the
    /// last source, in which case the waiters of `sum` must be released.
    pub fn add(&mut self, key: &str, outcome: Option<Result<R, WrapError>>) -> (release: bool)
        requires
            old(self).wf(),
            old(self).added() < old(self).size(),
        ensures
            final(self).wf(),
            final(self).size() == old(self).size(),
            final(self).added() == old(self).added() + 1,
            final(self).pending() == old(self).pending() - 1,
            final(self).keys() == old(self).keys().update(old(self).added(), key@),
            final(self).results().len() == old(self).results().len(),
            forall|i: int|
                0 <= i < final(self).size() && i != old(self).added() ==> final(self).results()[i]
                    == old(self).results()[i],
            final(self).results()[old(self).added()] is Some,
            stores(outcome, final(self).results()[old(self).added()]->0),
            release == (final(self).pending() == 0),
    {
        let index = self.index;
        let result = outcome_result(outcome);
        let call = Call { key: key.to_owned(), result: Some(result) };
        let ghost pre = *self;
        self.calls.set(index as usize, call);
        self.index = index + 1;
        let release = self.wg.done();
        proof {
            assert(self.keys() =~= pre.keys().update(pre.added(), key@));
            assert forall|i: int|
                self.index <= i < self.calls@.len() implies (#[trigger] self.calls@[i]).result()
                is None by {
                assert(pre.calls@[i].result() is None);
            }
        }
        release
    }

    /// The result of the first added source named `key` can still be
    /// taken: it was not taken by an earlier `get` (or no added source has
    /// that name, and `get` answers with an error).
    pub open spec fn can_get(&self, key: Seq<char>) -> bool {
        match first_key(self.keys(), self.added(), key) {
            Some(i) => self.results()[i] is Some,
            None => true,
        }
    }

    /// Reading back what was added: when the source at position `i` is the
    /// first added one named `key` and its result was not taken yet, `get`
    /// may be called with `key` and hands out the result at position `i`.
    pub proof fn law_get_returns_added(&self, i: int, key: Seq<char>)
        requires
            self.wf(),
            0 <= i < self.added(),
            self.keys()[i] == key,
            forall|j: int| 0 <= j < i ==> self.keys()[j] != key,
            self.results()[i] is Some,
        ensures
            first_key(self.keys(), self.added(), key) == Some(i),
            self.can_get(key),
    {
        law_get_after_add(self.keys(), i, self.added(), key);
    }

    /// Whether `get` may be called with `key` (see `can_get`).
    pub fn check_get(&self, key: &str) -> (b: bool)
        requires
            self.wf(),
        ensures
            b == self.can_get(key@),
    {
        match self.find(key) {
            Some(i) => {
                proof {
                    assert(self.results()[i as int] == self.calls@[i as int].result());
                }
                self.calls[i].result.is_some()
            },
            None => true,
        }
    }

    /// The position of the first added source named `key`.
    fn find(&self, key: &str) -> (r: Option<usize>)
        requires
            self.wf(),
        ensures
            match first_key(self.keys(), self.added(), key@) {
                Some(i) => r is Some && r->0 == i,
                None => r is None,
            },
            r matches Some(i) ==> i < self.added(),
    {
        let k = key.to_owned();
        let n = self.index as usize;
        let mut i: usize = 0;
        while i < n
            invariant
                self.wf(),
                n == self.index,
                i <= n,
                k@ == key@,
                forall|j: int| 0 <= j < i ==> self.keys()[j] != key@,
            decreases n - i,
        {
            if self.calls[i].key == k {
                proof {
                    let ks = self.keys();
                    assert(ks[i as int] == key@);
                    let c = choose|c: int|
                        0 <= c < self.added() && ks[c] == key@ && forall|j: int|
                            0 <= j < c ==> ks[j] != key@;
                    assert(c == i as int) by {
                        if c < i {
                        } else if c > i {
                        }
                    }
                }
                return Some(i);
            }
            i = i + 1;
        }
        None
    }

    /// Takes the result of the first added source named `key`: its value or
    /// its error. Each result can be taken once; a name that no added source
    /// has gives the "key doesn't exist" error.
    #[verifier::rlimit(40)]
    pub fn get(&mut self, key: &str) -> (r: Result<R, WrapError>)
        requires
            old(self).wf(),
            old(self).can_get(key@),
        ensures
            final(self).wf(),
            final(self).size() == old(self).size(),
            final(self).added() == old(self).added(),
            final(self).pending() == old(self).pending(),
            final(self).keys() == old(self).keys(),
            match first_key(old(self).keys(), old(self).added(), key@) {
                Some(i) => old(self).results()[i] == Some(r) && final(self).results() == old(
                    self,
                ).results().update(i, None),
                None => r matches Err(e) && e.0@ == missing_text() && final(self).results() == old(
                    self,
                ).results(),
            },
            (forall|i: int| 0 <= i < old(self).added() ==> old(self).keys()[i] != key@) ==> (r matches Err(
                e,
            ) && e.0@ == missing_text() && final(self).results() == old(self).results()),
            r is Ok ==> exists|i: int|
                0 <= i < old(self).added() && old(self).keys()[i] == key@ && old(self).results()[i]
                    == Some(r),
    {
        proof {
            law_first_key(self.keys(), self.added(), key@);
        }
        match self.find(key) {
            Some(i) => {
                let ghost pre = *self;
                let call = self.calls.remove(i);
                let Call { key: name, result } = call;
                self.calls.insert(i, Call { key: name, result: None });
                proof {
                    let ghost taken = Call::<R> { key: name, result: None };
                    assert(self.calls@ =~= pre.calls@.update(i as int, taken));
                    assert(pre.results()[i as int] == result);
                    assert forall|j: int| 0 <= j < self.calls@.len() implies #[trigger] self.keys()[j]
                        == pre.keys()[j] by {
                        if j == i {
                            assert(self.calls@[j].key == pre.calls@[j].key);
                        }
                    }
                    assert(self.keys() =~= pre.keys());
                    assert(self.results() =~= pre.results().update(i as int, None));
                    assert forall|j: int|
                        self.index <= j < self.calls@.len() implies (#[trigger] self.calls@[j]).result()
                        is None by {
                        assert(pre.calls@[j].result() is None);
                    }
                }
                match result {
                    Some(r) => r,
                    None => Err(WrapError("key doesn't exist".to_owned())),
                }
            },
            None => Err(WrapError("key doesn't exist".to_owned())),
        }
    }

    /// Whether sources are still to be added.
    pub fn should_wait(&self) -> (b: bool)
        ensures
            b == (self.pending() > 0),
    {
        self.wg.should_wait()
    }

    /// Drops every collected result and waits for `n` new sources.
    pub fn reset(&mut self, n: u32)
        ensures
            final(self).wf(),
            final(self).size() == n,
            final(self).added() == 0,
            final(self).pending() == n,
            final(self).keys().len() == n,
            final(self).results().len() == n,
    {
        self.calls = fresh_calls(n);
        self.index = 0;
        self.wg = WaitGroup::new(n);
    }
}

} // verus!
