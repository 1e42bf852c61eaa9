//! The list of parked waiters of one side of the single-producer queue.
//! Waiters are named by `u64` ids; the caller does the waking.

use vstd::prelude::*;
use std::collections::VecDeque;
use crate::queue::waker::first_index;

verus! {

/// Registered waiters, in order of registration.
pub struct Metadata {
    waiters: VecDeque<u64>,
    closed: bool,
}

impl Metadata {
    /// The registered waiters, oldest first.
    pub closed spec fn waiters(&self) -> Seq<u64> {
        self.waiters@
    }

    /// The side was closed.
    pub closed spec fn closed(&self) -> bool {
        self.closed
    }

    /// No waiter, open.
    pub fn new() -> (m: Self)
        ensures
            m.waiters() == Seq::<u64>::empty(),
            !m.closed(),
    {
        Metadata { waiters: VecDeque::new(), closed: false }
    }

    /// Adds a waiter at the back.
    pub fn register(&mut self, waiter: u64)
        ensures
            final(self).waiters() == old(self).waiters().push(waiter),
            final(self).closed() == old(self).closed(),
    {
        self.waiters.push_back(waiter);
    }

    /// Removes the oldest registration of `waiter`; returns whether there
    /// was one.
    pub fn unregister(&mut self, waiter: u64) -> (found: bool)
        ensures
            final(self).closed() == old(self).closed(),
            found == first_index(old(self).waiters(), waiter) is Some,
            match first_index(old(self).waiters(), waiter) {
                Some(i) => final(self).waiters() == old(self).waiters().remove(i),
                None => final(self).waiters() == old(self).waiters(),
            },
    {
        if self.waiters.len() == 0 {
            return false;
        }
        let n = self.waiters.len();
        let mut i: usize = 0;
        while i < n
            invariant
                n == self.waiters@.len(),
                i <= n,
                forall|j: int| 0 <= j < i ==> self.waiters@[j] != waiter,
                *self == *old(self),
            decreases n - i,
        {
            if self.waiters[i] == waiter {
                proof {
                    let s = self.waiters@;
                    assert(exists|k: int| 0 <= k < s.len() && s[k] == waiter);
                    let k = choose|k: int|
                        0 <= k < s.len() && s[k] == waiter && forall|j: int|
                            0 <= j < k ==> s[j] != waiter;
                    assert(k == i as int) by {
                        if k < i {
                        } else if k > i {
                        }
                    }
                }
                self.waiters.remove(i);
                return true;
            }
            i = i + 1;
        }
        false
    }

    /// The waiter to wake: the oldest one, if any (to be woken if parked).
    pub fn notify(&self) -> (to_wake: Option<u64>)
        ensures
            self.waiters().len() == 0 ==> to_wake is None,
            self.waiters().len() > 0 ==> to_wake == Some(self.waiters()[0]),
    {
        if self.waiters.len() > 0 {
            Some(self.waiters[0])
        } else {
            None
        }
    }

    /// Closes the side and returns every registered waiter, all of which must
    /// be woken.
    pub fn close(&mut self) -> (to_wake: Vec<u64>)
        ensures
            final(self).closed(),
            final(self).waiters() == old(self).waiters(),
            to_wake@ == old(self).waiters(),
    {
        self.closed = true;
        let mut to_wake: Vec<u64> = Vec::new();
        let n = self.waiters.len();
        let mut idx: usize = 0;
        while idx < n
            invariant
                n == self.waiters@.len(),
                idx <= n,
                to_wake@ == self.waiters@.subrange(0, idx as int),
            decreases n - idx,
        {
            to_wake.push(self.waiters[idx]);
            idx = idx + 1;
            proof {
                assert(to_wake@ =~= self.waiters@.subrange(0, idx as int));
            }
        }
        proof {
            assert(to_wake@ =~= self.waiters@);
        }
        to_wake
    }

    /// Whether no waiter is registered.
    pub fn is_empty(&self) -> (b: bool)
        ensures
            b == (self.waiters().len() == 0),
    {
        self.waiters.len() == 0
    }

    /// Whether the side was closed.
    pub fn is_closed(&self) -> (b: bool)
        ensures
            b == self.closed(),
    {
        self.closed
    }
}

} // verus!
