//! The list of parked waiters of one side of a queue.
//!
//! Waiters are named by `u64` ids. Waking is decided here: the caller gets
//! the ids to wake and does the waking.

use vstd::prelude::*;
use std::collections::VecDeque;

verus! {

/// The first index at which `w` occurs in `s`, if any.
pub open spec fn first_index(s: Seq<u64>, w: u64) -> Option<int> {
    if exists|i: int| 0 <= i < s.len() && s[i] == w {
        let i = choose|i: int| 0 <= i < s.len() && s[i] == w && forall|j: int| 0 <= j < i ==> s[j] != w;
        Some(i)
    } else {
        None
    }
}

/// Registering a waiter that was not registered and then unregistering it
/// gives back the list of waiters as it was.
pub proof fn law_register_unregister(s: Seq<u64>, w: u64)
    requires
        !s.contains(w),
    ensures
        first_index(s.push(w), w) == Some(s.len() as int),
        s.push(w).remove(s.len() as int) == s,
{
    let t = s.push(w);
    assert(t[s.len() as int] == w);
    let k = choose|k: int| 0 <= k < t.len() && t[k] == w && forall|j: int| 0 <= j < k ==> t[j] != w;
    assert(k == s.len()) by {
        if k < s.len() {
            assert(s[k] == w);
        }
    }
    assert(t.remove(s.len() as int) =~= s);
}

/// Registered waiters, in order of registration, and how many of them have
/// been signalled.
pub struct Metadata {
    waiters: VecDeque<u64>,
    start: usize,
    closed: bool,
}

impl Metadata {
    /// The registered waiters, oldest first.
    pub closed spec fn waiters(&self) -> Seq<u64> {
        self.waiters@
    }

    /// How many of the oldest waiters have been signalled.
    pub closed spec fn start(&self) -> int {
        self.start as int
    }

    /// The side was closed.
    pub closed spec fn closed(&self) -> bool {
        self.closed
    }

    /// At most all waiters are signalled.
    pub closed spec fn wf(&self) -> bool {
        self.start <= self.waiters@.len()
    }

    /// No waiter, nothing signalled, open.
    pub fn new() -> (m: Self)
        ensures
            m.wf(),
            m.waiters() == Seq::<u64>::empty(),
            m.start() == 0,
            !m.closed(),
    {
        Metadata { waiters: VecDeque::new(), start: 0, closed: false }
    }

    /// Adds a waiter at the back.
    pub fn register(&mut self, waiter: u64)
        requires
            old(self).wf(),
        ensures
            final(self).wf(),
            final(self).waiters() == old(self).waiters().push(waiter),
            final(self).start() == old(self).start(),
            final(self).closed() == old(self).closed(),
    {
        self.waiters.push_back(waiter);
    }

    /// Removes the oldest registration of `waiter`, if there is one; the
    /// count of signalled waiters then drops by one (not below zero).
    pub fn unregister(&mut self, waiter: u64)
        requires
            old(self).wf(),
        ensures
            final(self).wf(),
            final(self).closed() == old(self).closed(),
            match first_index(old(self).waiters(), waiter) {
                Some(i) => final(self).waiters() == old(self).waiters().remove(i)
                    && final(self).start() == if old(self).start() > 0 {
                    old(self).start() - 1
                } else {
                    0
                },
                None => final(self).waiters() == old(self).waiters() && final(self).start()
                    == old(self).start(),
            },
    {
        let n = self.waiters.len();
        let mut i: usize = 0;
        while i < n
            invariant
                n == self.waiters@.len(),
                i <= n,
                forall|j: int| 0 <= j < i ==> self.waiters@[j] != waiter,
                *self == *old(self),
                self.wf(),
            decreases n - i,
        {
            if self.waiters[i] == waiter {
                proof {
                    let s = self.waiters@;
                    assert(exists|k: int| 0 <= k < s.len() && s[k] == waiter);
                    let k = choose|k: int|
                        0 <= k < s.len() && s[k] == waiter && forall|j: int|
                            0 <= j < k ==> s[j] != waiter;
                    assert(k == i as int) by {
                        if k < i {
                        } else if k > i {
                        }
                    }
                }
                self.waiters.remove(i);
                if self.start > 0 {
                    self.start = self.start - 1;
                }
                return;
            }
            i = i + 1;
        }
    }

    /// Signals one more waiter (when one is left unsignalled) and returns the
    /// signalled waiters, oldest first: each of them that is parked must be
    /// woken, so that no wake-up is lost.
    pub fn notify(&mut self) -> (to_wake: Vec<u64>)
        requires
            old(self).wf(),
        ensures
            final(self).wf(),
            final(self).waiters() == old(self).waiters(),
            final(self).closed() == old(self).closed(),
            final(self).start() == if old(self).start() < old(self).waiters().len() {
                old(self).start() + 1
            } else {
                old(self).start()
            },
            to_wake@ == final(self).waiters().subrange(0, final(self).start()),
    {
        if self.start < self.waiters.len() {
            self.start = self.start + 1;
        }
        let mut to_wake: Vec<u64> = Vec::new();
        let mut idx: usize = 0;
        while idx < self.start
            invariant
                self.wf(),
                idx <= self.start,
                to_wake@ == self.waiters@.subrange(0, idx as int),
            decreases self.start - idx,
        {
            to_wake.push(self.waiters[idx]);
            idx = idx + 1;
            proof {
                assert(to_wake@ =~= self.waiters@.subrange(0, idx as int));
            }
        }
        to_wake
    }

    /// Closes the side and returns every registered waiter, all of which must
    /// be woken.
    pub fn close(&mut self) -> (to_wake: Vec<u64>)
        requires
            old(self).wf(),
        ensures
            final(self).wf(),
            final(self).closed(),
            final(self).waiters() == old(self).waiters(),
            final(self).start() == old(self).start(),
            to_wake@ == old(self).waiters(),
    {
        self.closed = true;
        let mut to_wake: Vec<u64> = Vec::new();
        let n = self.waiters.len();
        let mut idx: usize = 0;
        while idx < n
            invariant
                n == self.waiters@.len(),
                idx <= n,
                to_wake@ == self.waiters@.subrange(0, idx as int),
            decreases n - idx,
        {
            to_wake.push(self.waiters[idx]);
            idx = idx + 1;
            proof {
                assert(to_wake@ =~= self.waiters@.subrange(0, idx as int));
            }
        }
        proof {
            assert(to_wake@ =~= self.waiters@);
        }
        to_wake
    }

    /// Whether no waiter is registered.
    pub fn is_empty(&self) -> (b: bool)
        ensures
            b == (self.waiters().len() == 0),
    {
        self.waiters.len() == 0
    }

    /// Whether the side was closed.
    pub fn is_closed(&self) -> (b: bool)
        ensures
            b == self.closed(),
    {
        self.closed
    }
}

} // verus!
