//! Unbounded queues: a chain of bounded queues of `SUB_QUEUE_SIZE` slots.
//! A sender that finds the last queue full closes it and starts a new one;
//! a receiver that finds the first queue drained and closed drops it and
//! moves on to the next one. Once the unbounded queue is closed every send
//! fails, and the messages still held can be received.

use vstd::prelude::*;
use std::collections::VecDeque;
use crate::error::{RecvError, SendError, TrySendError};
use crate::queue::bounded::{MpmcBounded, SpscBounded};
use crate::queue::bounded::{Event, step};
use crate::queue::state::Step;

verus! {

/// Slots of each queue in the chain.
pub const SUB_QUEUE_SIZE: u32 = 1024;

/// The messages of a chain of queues, first queue first.
pub open spec fn flat<N, T>(s: Seq<N>, f: spec_fn(N) -> Seq<T>) -> Seq<T> {
    s.map_values(f).flatten()
}

/// Appending a queue to the chain appends its messages.
pub proof fn lemma_flat_push<N, T>(s: Seq<N>, n: N, f: spec_fn(N) -> Seq<T>)
    ensures
        flat(s.push(n), f) == flat(s, f) + f(n),
{
    assert(s.push(n).map_values(f) =~= s.map_values(f).push(f(n)));
    s.map_values(f).lemma_flatten_push(f(n));
}

/// The messages of a non-empty chain are those of its first queue followed by
/// those of the rest.
pub proof fn lemma_flat_front<N, T>(s: Seq<N>, f: spec_fn(N) -> Seq<T>)
    requires
        s.len() >= 1,
    ensures
        flat(s, f) == f(s[0]) + flat(s.drop_first(), f),
{
    assert(s.map_values(f).drop_first() =~= s.drop_first().map_values(f));
}

/// A chain of one queue holds that queue's messages.
pub proof fn lemma_flat_one<N, T>(s: Seq<N>, f: spec_fn(N) -> Seq<T>)
    requires
        s.len() == 1,
    ensures
        flat(s, f) == f(s[0]),
{
    lemma_flat_front(s, f);
    assert(s.drop_first().map_values(f) =~= Seq::<Seq<T>>::empty());
    assert(Seq::<Seq<T>>::empty().flatten() =~= Seq::<T>::empty());
}

} // verus!

verus! {

/// An unbounded queue for one sender and one receiver.
pub struct SpscUnbounded<T> {
    nodes: VecDeque<SpscBounded<T>>,
    closed: bool,
}

/// The view of one queue of the chain.
pub open spec fn spsc_node_view<T>(n: SpscBounded<T>) -> Seq<T> {
    n@
}

impl<T> SpscUnbounded<T> {
    /// The messages in the queue, oldest first.
    pub closed spec fn view(&self) -> Seq<T> {
        flat(self.nodes@, |n: SpscBounded<T>| spsc_node_view(n))
    }

    /// The queue was closed.
    pub closed spec fn closed(&self) -> bool {
        self.closed
    }

    /// Number of queues in the chain.
    pub closed spec fn node_count(&self) -> int {
        self.nodes@.len() as int
    }

    /// The last queue of the chain, which takes sends, is full.
    pub closed spec fn tail_full(&self) -> bool {
        self.nodes@.last()@.len() == SUB_QUEUE_SIZE
    }

    /// Well-formedness of the chain: every queue but the last is closed and
    /// every queue but the first holds a message.
    pub closed spec fn wf(&self) -> bool {
        let s = self.nodes@;
        &&& s.len() >= 1
        &&& forall|i: int| 0 <= i < s.len() ==> #[trigger] s[i].wf()
        &&& forall|i: int| 0 <= i < s.len() - 1 ==> #[trigger] s[i].closed()
        &&& !s.last().closed()
        &&& forall|i: int| 1 <= i < s.len() ==> (#[trigger] s[i])@.len() > 0
        &&& forall|i: int| 0 <= i < s.len() ==> (#[trigger] s[i]).capacity() == SUB_QUEUE_SIZE
    }

    /// An open queue holding nothing.
    pub fn new() -> (q: Self)
        ensures
            q.wf(),
            q@ == Seq::<T>::empty(),
            !q.closed(),
            q.node_count() == 1,
    {
        let node = SpscBounded::new(SUB_QUEUE_SIZE);
        proof {
            use_type_invariant(&node);
        }
        let mut nodes: VecDeque<SpscBounded<T>> = VecDeque::new();
        nodes.push_back(node);
        let q = SpscUnbounded { nodes, closed: false };
        proof {
            lemma_flat_one(q.nodes@, |n: SpscBounded<T>| spsc_node_view(n));
        }
        q
    }

    /// Sends a message; never blocks.
    ///
    /// On an open queue the message always joins the back of the queue: when
    /// the last queue of the chain is full it is closed and a new one takes
    /// the message. On a closed queue the send fails and hands the message
    /// back.
    pub fn send(&mut self, msg: T) -> (r: Result<(), SendError<T>>)
        requires
            old(self).wf(),
        ensures
            final(self).wf(),
            final(self).closed() == old(self).closed(),
            old(self).closed() ==> r == Err::<(), SendError<T>>(SendError(msg)) && final(self)@
                == old(self)@ && final(self).node_count() == old(self).node_count(),
            !old(self).closed() ==> r == Ok::<(), SendError<T>>(()) && final(self)@ == old(self)@.push(msg),
            !old(self).closed() && !old(self).tail_full() ==> final(self).node_count() == old(
                self,
            ).node_count(),
            !old(self).closed() && old(self).tail_full() ==> final(self).node_count() == old(
                self,
            ).node_count() + 1,
            r is Ok ==> step(old(self)@, Event::Sent(msg)) == Some(final(self)@),
    {
        if self.closed {
            return Err(SendError(msg));
        }
        let ghost f = |n: SpscBounded<T>| spsc_node_view(n);
        let ghost s = self.nodes@;
        let mut node = self.nodes.pop_back().unwrap();
        let ghost s0 = self.nodes@;
        proof {
            assert(s0 =~= s.drop_last());
            assert(s =~= s0.push(node));
            lemma_flat_push(s0, node, f);
            use_type_invariant(&node);
            node.lemma_wf();
        }
        match node.try_send(msg) {
            Ok(()) => {
                proof {
                    use_type_invariant(&node);
                }
                self.nodes.push_back(node);
                proof {
                    lemma_flat_push(s0, node, f);
                    assert(self.nodes@ =~= s0.push(node));
                }
                Ok(())
            },
            Err(TrySendError::Disconnected(m)) => {
                // The last queue of the chain is open, so this does not
                // happen.
                self.nodes.push_back(node);
                proof {
                    assert(self.nodes@ =~= s);
                }
                Err(SendError(m))
            },
            Err(TrySendError::Full(m)) => {
                // Close the full queue and start a new one after it.
                node.close();
                proof {
                    use_type_invariant(&node);
                }
                self.nodes.push_back(node);
                let ghost s1 = self.nodes@;
                let mut next = SpscBounded::new(SUB_QUEUE_SIZE);
                let _ = next.try_send(m);
                proof {
                    use_type_invariant(&next);
                }
                self.nodes.push_back(next);
                proof {
                    lemma_flat_push(s0, node, f);
                    lemma_flat_push(s1, next, f);
                    assert(s1 =~= s0.push(node));
                    assert(self.nodes@ =~= s1.push(next));
                    assert(f(next) =~= seq![m]);
                }
                Ok(())
            },
        }
    }

    /// One step of a blocking receive.
    ///
    /// Takes the oldest message; queues of the chain that are drained and
    /// closed are dropped on the way. Fails when the queue holds nothing and
    /// is closed, and waits when it holds nothing and is open.
    pub fn recv(&mut self) -> (r: Step<Result<T, RecvError>, ()>)
        requires
            old(self).wf(),
        ensures
            final(self).wf(),
            final(self).closed() == old(self).closed(),
            old(self)@.len() > 0 ==> r == Step::<Result<T, RecvError>, ()>::Done(Ok(old(self)@[0]))
                && final(self)@ == old(self)@.drop_first(),
            old(self)@.len() == 0 && old(self).closed() ==> r == Step::<
                Result<T, RecvError>,
                (),
            >::Done(Err(RecvError)) && final(self)@ == old(self)@,
            old(self)@.len() == 0 && !old(self).closed() ==> r == Step::<
                Result<T, RecvError>,
                (),
            >::Wait(()) && final(self)@ == old(self)@,
            r matches Step::Done(Ok(m)) ==> step(old(self)@, Event::Got(m)) == Some(final(self)@),
    {
        loop
            invariant
                self.wf(),
                self.closed == old(self).closed(),
                self@ == old(self)@,
            decreases self.nodes@.len(),
        {
            let ghost f = |n: SpscBounded<T>| spsc_node_view(n);
            let ghost s = self.nodes@;
            let mut head = self.nodes.pop_front().unwrap();
            let ghost s0 = self.nodes@;
            proof {
                assert(s0 =~= s.drop_first());
                lemma_flat_front(s, f);
                use_type_invariant(&head);
                head.lemma_wf();
            }
            match head.recv() {
                Step::Done(Ok(m)) => {
                    proof {
                        use_type_invariant(&head);
                    }
                    self.nodes.push_front(head);
                    proof {
                        assert(self.nodes@ =~= seq![head] + s0);
                        assert(self.nodes@.drop_first() =~= s0);
                        lemma_flat_front(self.nodes@, f);
                        assert(f(s[0]).len() > 0);
                        assert(old(self)@[0] == f(s[0])[0]);
                        assert(self@ =~= old(self)@.drop_first());
                    }
                    return Step::Done(Ok(m));
                },
                Step::Wait(()) => {
                    // The first queue is empty and open, so it is the only
                    // one and the chain holds nothing.
                    self.nodes.push_front(head);
                    proof {
                        assert(self.nodes@ =~= s);
                        if s.len() > 1 {
                            assert(s[0].closed());
                        }
                        lemma_flat_one(s, f);
                    }
                    if self.closed {
                        return Step::Done(Err(RecvError));
                    }
                    return Step::Wait(());
                },
                Step::Done(Err(_)) => {
                    // The first queue is drained and closed, so a newer one
                    // follows it: drop the drained one and go on.
                    proof {
                        assert(f(head) =~= Seq::<T>::empty());
                        assert(s.len() >= 2);
                        assert(s0.len() >= 1);
                        assert(s0.last() == s.last());
                        assert forall|i: int| 0 <= i < s0.len() implies s0[i] == s[i + 1] by {}
                    }
                },
            }
        }
    }

    /// Closes the queue: later sends fail, the messages held can still be
    /// received.
    pub fn close(&mut self)
        requires
            old(self).wf(),
        ensures
            final(self).wf(),
            final(self).closed(),
            final(self)@ == old(self)@,
            final(self).node_count() == old(self).node_count(),
    {
        self.closed = true;
    }

    /// Whether the queue was closed.
    pub fn is_close(&self) -> (b: bool)
        ensures
            b == self.closed(),
    {
        self.closed
    }
}

} // verus!

verus! {

/// An unbounded queue for many senders and many receivers.
pub struct MpmcUnbounded<T> {
    nodes: VecDeque<MpmcBounded<T>>,
    closed: bool,
}

/// The view of one queue of the chain.
pub open spec fn mpmc_node_view<T>(n: MpmcBounded<T>) -> Seq<T> {
    n@
}

impl<T> MpmcUnbounded<T> {
    /// The messages in the queue, oldest first.
    pub closed spec fn view(&self) -> Seq<T> {
        flat(self.nodes@, |n: MpmcBounded<T>| mpmc_node_view(n))
    }

    /// The queue was closed.
    pub closed spec fn closed(&self) -> bool {
        self.closed
    }

    /// Number of queues in the chain.
    pub closed spec fn node_count(&self) -> int {
        self.nodes@.len() as int
    }

    /// The last queue of the chain, which takes sends, is full.
    pub closed spec fn tail_full(&self) -> bool {
        self.nodes@.last()@.len() == SUB_QUEUE_SIZE
    }

    /// Well-formedness of the chain: every queue but the last is closed and
    /// every queue but the first holds a message.
    pub closed spec fn wf(&self) -> bool {
        let s = self.nodes@;
        &&& s.len() >= 1
        &&& forall|i: int| 0 <= i < s.len() ==> #[trigger] s[i].wf()
        &&& forall|i: int| 0 <= i < s.len() - 1 ==> #[trigger] s[i].closed()
        &&& !s.last().closed()
        &&& forall|i: int| 1 <= i < s.len() ==> (#[trigger] s[i])@.len() > 0
        &&& forall|i: int| 0 <= i < s.len() ==> (#[trigger] s[i]).capacity() == SUB_QUEUE_SIZE
    }

    /// An open queue holding nothing.
    pub fn new() -> (q: Self)
        ensures
            q.wf(),
            q@ == Seq::<T>::empty(),
            !q.closed(),
            q.node_count() == 1,
    {
        let node = MpmcBounded::new(SUB_QUEUE_SIZE);
        proof {
            use_type_invariant(&node);
        }
        let mut nodes: VecDeque<MpmcBounded<T>> = VecDeque::new();
        nodes.push_back(node);
        let q = MpmcUnbounded { nodes, closed: false };
        proof {
            lemma_flat_one(q.nodes@, |n: MpmcBounded<T>| mpmc_node_view(n));
        }
        q
    }

    /// Sends a message; never blocks.
    ///
    /// On an open queue the message always joins the back of the queue: when
    /// the last queue of the chain is full it is closed and a new one takes
    /// the message. On a closed queue the send fails and hands the message
    /// back.
    pub fn send(&mut self, msg: T) -> (r: Result<(), SendError<T>>)
        requires
            old(self).wf(),
        ensures
            final(self).wf(),
            final(self).closed() == old(self).closed(),
            old(self).closed() ==> r == Err::<(), SendError<T>>(SendError(msg)) && final(self)@
                == old(self)@ && final(self).node_count() == old(self).node_count(),
            !old(self).closed() ==> r == Ok::<(), SendError<T>>(()) && final(self)@ == old(self)@.push(msg),
            !old(self).closed() && !old(self).tail_full() ==> final(self).node_count() == old(
                self,
            ).node_count(),
            !old(self).closed() && old(self).tail_full() ==> final(self).node_count() == old(
                self,
            ).node_count() + 1,
            r is Ok ==> step(old(self)@, Event::Sent(msg)) == Some(final(self)@),
    {
        if self.closed {
            return Err(SendError(msg));
        }
        let ghost f = |n: MpmcBounded<T>| mpmc_node_view(n);
        let ghost s = self.nodes@;
        let mut node = self.nodes.pop_back().unwrap();
        let ghost s0 = self.nodes@;
        proof {
            assert(s0 =~= s.drop_last());
            assert(s =~= s0.push(node));
            lemma_flat_push(s0, node, f);
            use_type_invariant(&node);
            node.lemma_wf();
        }
        match node.try_send(msg) {
            Ok(()) => {
                proof {
                    use_type_invariant(&node);
                }
                self.nodes.push_back(node);
                proof {
                    lemma_flat_push(s0, node, f);
                    assert(self.nodes@ =~= s0.push(node));
                }
                Ok(())
            },
            Err(TrySendError::Disconnected(m)) => {
                // The last queue of the chain is open, so this does not
                // happen.
                self.nodes.push_back(node);
                proof {
                    assert(self.nodes@ =~= s);
                }
                Err(SendError(m))
            },
            Err(TrySendError::Full(m)) => {
                // Close the full queue and start a new one after it.
                node.close();
                proof {
                    use_type_invariant(&node);
                }
                self.nodes.push_back(node);
                let ghost s1 = self.nodes@;
                let mut next = MpmcBounded::new(SUB_QUEUE_SIZE);
                let _ = next.try_send(m);
                proof {
                    use_type_invariant(&next);
                }
                self.nodes.push_back(next);
                proof {
                    lemma_flat_push(s0, node, f);
                    lemma_flat_push(s1, next, f);
                    assert(s1 =~= s0.push(node));
                    assert(self.nodes@ =~= s1.push(next));
                    assert(f(next) =~= seq![m]);
                }
                Ok(())
            },
        }
    }

    /// One step of a blocking receive.
    ///
    /// Takes the oldest message; queues of the chain that are drained and
    /// closed are dropped on the way. Fails when the queue holds nothing and
    /// is closed, and waits when it holds nothing and is open.
    pub fn recv(&mut self) -> (r: Step<Result<T, RecvError>, ()>)
        requires
            old(self).wf(),
        ensures
            final(self).wf(),
            final(self).closed() == old(self).closed(),
            old(self)@.len() > 0 ==> r == Step::<Result<T, RecvError>, ()>::Done(Ok(old(self)@[0]))
                && final(self)@ == old(self)@.drop_first(),
            old(self)@.len() == 0 && old(self).closed() ==> r == Step::<
                Result<T, RecvError>,
                (),
            >::Done(Err(RecvError)) && final(self)@ == old(self)@,
            old(self)@.len() == 0 && !old(self).closed() ==> r == Step::<
                Result<T, RecvError>,
                (),
            >::Wait(()) && final(self)@ == old(self)@,
            r matches Step::Done(Ok(m)) ==> step(old(self)@, Event::Got(m)) == Some(final(self)@),
    {
        loop
            invariant
                self.wf(),
                self.closed == old(self).closed(),
                self@ == old(self)@,
            decreases self.nodes@.len(),
        {
            let ghost f = |n: MpmcBounded<T>| mpmc_node_view(n);
            let ghost s = self.nodes@;
            let mut head = self.nodes.pop_front().unwrap();
            let ghost s0 = self.nodes@;
            proof {
                assert(s0 =~= s.drop_first());
                lemma_flat_front(s, f);
                use_type_invariant(&head);
                head.lemma_wf();
            }
            match head.recv() {
                Step::Done(Ok(m)) => {
                    proof {
                        use_type_invariant(&head);
                    }
                    self.nodes.push_front(head);
                    proof {
                        assert(self.nodes@ =~= seq![head] + s0);
                        assert(self.nodes@.drop_first() =~= s0);
                        lemma_flat_front(self.nodes@, f);
                        assert(f(s[0]).len() > 0);
                        assert(old(self)@[0] == f(s[0])[0]);
                        assert(self@ =~= old(self)@.drop_first());
                    }
                    return Step::Done(Ok(m));
                },
                Step::Wait(()) => {
                    // The first queue is empty and open, so it is the only
                    // one and the chain holds nothing.
                    self.nodes.push_front(head);
                    proof {
                        assert(self.nodes@ =~= s);
                        if s.len() > 1 {
                            assert(s[0].closed());
                        }
                        lemma_flat_one(s, f);
                    }
                    if self.closed {
                        return Step::Done(Err(RecvError));
                    }
                    return Step::Wait(());
                },
                Step::Done(Err(_)) => {
                    // The first queue is drained and closed, so a newer one
                    // follows it: drop the drained one and go on.
                    proof {
                        assert(f(head) =~= Seq::<T>::empty());
                        assert(s.len() >= 2);
                        assert(s0.len() >= 1);
                        assert(s0.last() == s.last());
                        assert forall|i: int| 0 <= i < s0.len() implies s0[i] == s[i + 1] by {}
                    }
                },
            }
        }
    }

    /// Closes the queue: later sends fail, the messages held can still be
    /// received.
    pub fn close(&mut self)
        requires
            old(self).wf(),
        ensures
            final(self).wf(),
            final(self).closed(),
            final(self)@ == old(self)@,
            final(self).node_count() == old(self).node_count(),
    {
        self.closed = true;
    }

    /// Whether the queue was closed.
    pub fn is_close(&self) -> (b: bool)
        ensures
            b == self.closed(),
    {
        self.closed
    }
}

} // verus!
