//! Bounded queues for one or many senders and receivers, each a ring of
//! lap-stamped slots and a closed flag.

use vstd::prelude::*;
use crate::error::{RecvError, SendError, TryRecvError, TrySendError};
use crate::queue::state::{State, Step};
use crate::ring::{Ring, lapm, lemma_lapm_step};

verus! {

/// The largest capacity a bounded queue accepts (`1 << 30`).
pub const MAX_CAP: u32 = 0x4000_0000;

/// The capacity a queue created with `cap` gets: `cap`, or 1 when `cap` is 0.
pub open spec fn raw_cap(cap: u32) -> int {
    if cap > 0 {
        cap as int
    } else {
        1
    }
}

/// A queue asked for `cap` slots gets exactly `cap` of them, and one slot
/// when `cap` is 0.
pub proof fn law_capacity(cap: u32)
    ensures
        1 <= cap ==> raw_cap(cap) == cap,
        cap == 0 ==> raw_cap(cap) == 1,
        raw_cap(cap) >= 1,
{
}

/// One successful call on a queue: a send of a message, or a receive that
/// returned a message.
pub enum Event<T> {
    Sent(T),
    Got(T),
}

/// The view of a queue after `e`, from view `held`; `None` when `e` cannot
/// happen there (a receive of a message that is not the oldest one). The
/// send and receive functions of every queue state their effect with it: a
/// send of `m` that succeeds takes the view to `step(old, Sent(m))`, a
/// receive that returns `m` takes it to `step(old, Got(m))`.
pub open spec fn step<T>(held: Seq<T>, e: Event<T>) -> Option<Seq<T>> {
    match e {
        Event::Sent(m) => Some(held.push(m)),
        Event::Got(m) => if held.len() > 0 && held[0] == m {
            Some(held.drop_first())
        } else {
            None
        },
    }
}

/// The view after each event of `events` in turn, from view `held`; `None`
/// when one of them cannot happen.
pub open spec fn replay<T>(held: Seq<T>, events: Seq<Event<T>>) -> Option<Seq<T>>
    decreases events.len(),
{
    if events.len() == 0 {
        Some(held)
    } else {
        match step(held, events[0]) {
            Some(next) => replay(next, events.drop_first()),
            None => None,
        }
    }
}

/// The messages sent in `events`, in order.
pub open spec fn sent_of<T>(events: Seq<Event<T>>) -> Seq<T>
    decreases events.len(),
{
    if events.len() == 0 {
        Seq::empty()
    } else {
        match events[0] {
            Event::Sent(m) => seq![m] + sent_of(events.drop_first()),
            Event::Got(_) => sent_of(events.drop_first()),
        }
    }
}

/// The messages received in `events`, in order.
pub open spec fn got_of<T>(events: Seq<Event<T>>) -> Seq<T>
    decreases events.len(),
{
    if events.len() == 0 {
        Seq::empty()
    } else {
        match events[0] {
            Event::Sent(_) => got_of(events.drop_first()),
            Event::Got(m) => seq![m] + got_of(events.drop_first()),
        }
    }
}

/// First in, first out: on a queue that held `held`, any run of successful
/// sends and receives hands out the messages of `held` followed by the sent
/// ones, in order and each once; what was not handed out is still held, in
/// order.
pub proof fn law_fifo<T>(held: Seq<T>, events: Seq<Event<T>>)
    requires
        replay(held, events) is Some,
    ensures
        held + sent_of(events) == got_of(events) + replay(held, events)->0,
    decreases events.len(),
{
    if events.len() > 0 {
        let rest = events.drop_first();
        match events[0] {
            Event::Sent(m) => {
                law_fifo(held.push(m), rest);
                assert(held + (seq![m] + sent_of(rest)) =~= held.push(m) + sent_of(rest));
            },
            Event::Got(m) => {
                law_fifo(held.drop_first(), rest);
                assert(held =~= seq![m] + held.drop_first());
                assert(held + sent_of(rest) =~= seq![m] + (held.drop_first() + sent_of(rest)));
                assert(seq![m] + got_of(rest) + replay(held, events)->0 =~= seq![m] + (got_of(rest)
                    + replay(held, events)->0));
            },
        }
    } else {
        assert(held + Seq::<T>::empty() =~= Seq::<T>::empty() + held);
    }
}

fn raw_capacity(cap: u32) -> (c: u32)
    ensures
        c == raw_cap(cap),
        1 <= cap ==> c == cap,
        cap == 0 ==> c == 1,
{
    if cap > 0 {
        cap
    } else {
        1
    }
}

/// A bounded queue for one sender and one receiver.
pub struct SpscBounded<T> {
    ring: Ring<T>,
    closed: bool,
}

impl<T> SpscBounded<T> {
    /// Well-formedness; every value of the type has it.
    #[verifier::type_invariant]
    pub closed spec fn wf(&self) -> bool {
        self.ring.wf()
    }

    /// The messages in the queue, oldest first.
    pub closed spec fn view(&self) -> Seq<T> {
        self.ring.content()
    }

    /// Number of slots.
    pub closed spec fn capacity(&self) -> int {
        self.ring.cap()
    }

    /// The queue was closed.
    pub closed spec fn closed(&self) -> bool {
        self.closed
    }

    /// Slot index of the reader.
    pub closed spec fn head(&self) -> int {
        self.ring.rpos()
    }

    /// Slot index of the writer.
    pub closed spec fn tail(&self) -> int {
        self.ring.wpos()
    }

    /// The writer's lap, as the `u32` it is stored in.
    pub closed spec fn write_lap(&self) -> int {
        lapm(self.ring.wlap())
    }

    /// The reader's lap, as the `u32` it is stored in.
    pub closed spec fn read_lap(&self) -> int {
        lapm(self.ring.rlap())
    }

    /// A well-formed queue holds at most its capacity and has at least one
    /// slot.
    pub proof fn lemma_wf(&self)
        requires
            self.wf(),
        ensures
            self@.len() <= self.capacity(),
            1 <= self.capacity() <= u32::MAX,
            0 <= self.write_lap() < 0x1_0000_0000,
    {
        self.ring.lemma_wf();
    }

    /// Creates a queue with `cap` slots (one slot when `cap` is 0).
    pub fn new(cap: u32) -> (q: Self)
        requires
            cap <= MAX_CAP,
        ensures
            q@ == Seq::<T>::empty(),
            q.capacity() == raw_cap(cap),
            1 <= cap ==> q.capacity() == cap,
            cap == 0 ==> q.capacity() == 1,
            !q.closed(),
            q.write_lap() == 0,
            q.read_lap() == 1,
            q.head() == 0,
            q.tail() == 0,
    {
        let raw = raw_capacity(cap);
        let q = SpscBounded { ring: Ring::new(raw), closed: false };
        proof {
            lemma_lapm_step(0, 0);
            lemma_lapm_step(1, 0);
        }
        q
    }

    /// Closes the queue: later sends fail, remaining messages can still be
    /// received.
    pub fn close(&mut self)
        ensures
            final(self).closed(),
            final(self)@ == old(self)@,
            final(self).capacity() == old(self).capacity(),
            final(self).write_lap() == old(self).write_lap(),
            final(self).read_lap() == old(self).read_lap(),
            final(self).head() == old(self).head(),
            final(self).tail() == old(self).tail(),
    {
        proof {
            use_type_invariant(&*self);
        }
        self.closed = true;
    }

    /// Whether the queue was closed.
    pub fn is_close(&self) -> (b: bool)
        ensures
            b == self.closed(),
    {
        self.closed
    }

    /// The number of messages in the queue.
    pub fn length(&self) -> (n: u32)
        ensures
            n == self@.len(),
    {
        proof {
            use_type_invariant(self);
            self.ring.lemma_wf();
        }
        self.ring.length()
    }

    /// Selects the slot for the next write: `Closed` when the queue is
    /// closed, otherwise `Success` when a slot is free and `Failed` when the
    /// queue is full. Returns the slot index and the slot's stamp with it: the
    /// writer's lap for a free slot, one lap less for a full one.
    pub fn select_bucket_4_send(&self) -> (res: (u32, u32, State))
        ensures
            res.2 == (if self.closed() {
                State::Closed
            } else if self@.len() < self.capacity() {
                State::Success
            } else {
                State::Failed
            }),
            res.0 == self.tail(),
            res.2 == State::Success ==> res.1 == self.write_lap(),
            res.2 == State::Failed ==> res.1 == (self.write_lap() + 0xffff_ffff) % 0x1_0000_0000,
            res.2 == State::Closed ==> res.1 == 0,
    {
        proof {
            use_type_invariant(self);
            self.ring.lemma_wf();
        }
        let (idx, elem_lap, free) = self.ring.select_send();
        if self.closed {
            return (idx, 0, State::Closed);
        }
        if free {
            return (idx, elem_lap, State::Success);
        }
        proof {
            // A full ring is one round ahead of the reader, so the writer's
            // lap is at least 2.
            lemma_lapm_step(self.ring.wlap() - 1, 1);
        }
        (idx, elem_lap, State::Failed)
    }

    /// Selects the slot for the next read: true when a message is there.
    pub fn select_bucket_4_recv(&self) -> (res: (u32, u32, bool))
        ensures
            res.2 == (self@.len() > 0),
            res.0 == self.head(),
            res.2 ==> res.1 == self.read_lap(),
            !res.2 ==> res.1 == (self.read_lap() + 0xffff_ffff) % 0x1_0000_0000,
    {
        proof {
            use_type_invariant(self);
            lemma_lapm_step(self.ring.rlap() - 1, 1);
        }
        self.ring.select_recv()
    }

    /// Sends without blocking: `Disconnected` when closed, `Full` when no
    /// slot is free, otherwise the message joins the back of the queue.
    pub fn try_send(&mut self, msg: T) -> (r: Result<(), TrySendError<T>>)
        ensures
            final(self).capacity() == old(self).capacity(),
            final(self).closed() == old(self).closed(),
            final(self).read_lap() == old(self).read_lap(),
            old(self).closed() ==> r == Err::<(), TrySendError<T>>(TrySendError::Disconnected(msg))
                && final(self)@ == old(self)@,
            !old(self).closed() && old(self)@.len() == old(self).capacity() ==> r == Err::<
                (),
                TrySendError<T>,
            >(TrySendError::Full(msg)) && final(self)@ == old(self)@,
            !old(self).closed() && old(self)@.len() < old(self).capacity() ==> r == Ok::<(), TrySendError<T>>(())
                && final(self)@ == old(self)@.push(msg),
            r is Ok ==> final(self).head() == old(self).head() && final(self).tail() == if old(
                self,
            ).tail() + 1 < old(self).capacity() {
                old(self).tail() + 1
            } else {
                0
            } && final(self).write_lap() == if old(self).tail() + 1 < old(self).capacity() {
                old(self).write_lap()
            } else {
                (old(self).write_lap() + 2) % 0x1_0000_0000
            },
            r is Err ==> *final(self) == *old(self),
            r is Ok ==> step(old(self)@, Event::Sent(msg)) == Some(final(self)@),
    {
        proof {
            use_type_invariant(&*self);
            self.ring.lemma_wf();
            lemma_lapm_step(self.ring.wlap(), 2);
        }
        let (_idx, _lap, state) = self.select_bucket_4_send();
        if state == State::Success {
            self.ring.commit_send(msg);
            Ok(())
        } else if state == State::Closed {
            Err(TrySendError::Disconnected(msg))
        } else {
            Err(TrySendError::Full(msg))
        }
    }

    /// Receives without blocking: the oldest message, or an error when the
    /// queue is empty.
    pub fn try_recv(&mut self) -> (r: Result<T, TryRecvError>)
        ensures
            final(self).capacity() == old(self).capacity(),
            final(self).closed() == old(self).closed(),
            final(self).write_lap() == old(self).write_lap(),
            final(self).tail() == old(self).tail(),
            old(self)@.len() == 0 ==> r == Err::<T, TryRecvError>(TryRecvError) && *final(self)
                == *old(self),
            old(self)@.len() > 0 ==> r == Ok::<T, TryRecvError>(old(self)@[0]) && final(self)@
                == old(self)@.drop_first(),
            final(self).head() == if old(self)@.len() > 0 && old(self).head() + 1 < old(
                self,
            ).capacity() {
                old(self).head() + 1
            } else if old(self)@.len() > 0 {
                0
            } else {
                old(self).head()
            },
            final(self).read_lap() == if old(self)@.len() > 0 && old(self).head() + 1 == old(
                self,
            ).capacity() {
                (old(self).read_lap() + 2) % 0x1_0000_0000
            } else {
                old(self).read_lap()
            },
            r matches Ok(m) ==> step(old(self)@, Event::Got(m)) == Some(final(self)@),
    {
        proof {
            use_type_invariant(&*self);
            self.ring.lemma_wf();
            lemma_lapm_step(self.ring.rlap(), 2);
        }
        let (_idx, _lap, ready) = self.select_bucket_4_recv();
        if !ready {
            return Err(TryRecvError);
        }
        match self.ring.commit_recv() {
            Some(m) => Ok(m),
            None => Err(TryRecvError),
        }
    }

    /// One step of a blocking send: done when the message was stored or the
    /// queue is closed, otherwise the caller waits and tries again with the
    /// message handed back.
    pub fn send(&mut self, msg: T) -> (r: Step<Result<(), SendError<T>>, T>)
        ensures
            !(r == Step::<Result<(), SendError<T>>, T>::Done(Ok(()))) ==> *final(self) == *old(self),
            final(self).capacity() == old(self).capacity(),
            final(self).closed() == old(self).closed(),
            old(self).closed() ==> r == Step::<Result<(), SendError<T>>, T>::Done(
                Err(SendError(msg)),
            ) && final(self)@ == old(self)@,
            !old(self).closed() && old(self)@.len() == old(self).capacity() ==> r == Step::<
                Result<(), SendError<T>>,
                T,
            >::Wait(msg) && final(self)@ == old(self)@,
            !old(self).closed() && old(self)@.len() < old(self).capacity() ==> r == Step::<
                Result<(), SendError<T>>,
                T,
            >::Done(Ok(())) && final(self)@ == old(self)@.push(msg),
            r == Step::<Result<(), SendError<T>>, T>::Done(Ok(())) ==> step(old(self)@, Event::Sent(msg))
                == Some(final(self)@),
    {
        match self.try_send(msg) {
            Ok(()) => Step::Done(Ok(())),
            Err(TrySendError::Disconnected(m)) => Step::Done(Err(SendError(m))),
            Err(TrySendError::Full(m)) => Step::Wait(m),
        }
    }

    /// One step of a blocking receive: done with the oldest message, or with
    /// an error when the queue is empty and closed; otherwise the caller
    /// waits and tries again.
    pub fn recv(&mut self) -> (r: Step<Result<T, RecvError>, ()>)
        ensures
            !(r matches Step::Done(Ok(_))) ==> *final(self) == *old(self),
            final(self).capacity() == old(self).capacity(),
            final(self).closed() == old(self).closed(),
            final(self).write_lap() == old(self).write_lap(),
            final(self).tail() == old(self).tail(),
            old(self)@.len() > 0 ==> r == Step::<Result<T, RecvError>, ()>::Done(Ok(old(self)@[0]))
                && final(self)@ == old(self)@.drop_first(),
            old(self)@.len() == 0 && old(self).closed() ==> r == Step::<
                Result<T, RecvError>,
                (),
            >::Done(Err(RecvError)) && final(self)@ == old(self)@,
            old(self)@.len() == 0 && !old(self).closed() ==> r == Step::<
                Result<T, RecvError>,
                (),
            >::Wait(()) && final(self)@ == old(self)@,
            r matches Step::Done(Ok(m)) ==> step(old(self)@, Event::Got(m)) == Some(final(self)@),
    {
        match self.try_recv() {
            Ok(m) => Step::Done(Ok(m)),
            Err(_) => {
                if self.closed {
                    Step::Done(Err(RecvError))
                } else {
                    Step::Wait(())
                }
            },
        }
    }

    /// Number of slots.
    pub fn get_cap(&self) -> (c: u32)
        ensures
            c == self.capacity(),
    {
        self.ring.get_cap()
    }
}

/// A bounded queue for many senders and many receivers.
pub struct MpmcBounded<T> {
    ring: Ring<T>,
    closed: bool,
}

impl<T> MpmcBounded<T> {
    /// Well-formedness; every value of the type has it.
    #[verifier::type_invariant]
    pub closed spec fn wf(&self) -> bool {
        self.ring.wf()
    }

    /// The messages in the queue, oldest first.
    pub closed spec fn view(&self) -> Seq<T> {
        self.ring.content()
    }

    /// Number of slots.
    pub closed spec fn capacity(&self) -> int {
        self.ring.cap()
    }

    /// The queue was closed.
    pub closed spec fn closed(&self) -> bool {
        self.closed
    }

    /// Slot index of the reader.
    pub closed spec fn head(&self) -> int {
        self.ring.rpos()
    }

    /// Slot index of the writer.
    pub closed spec fn tail(&self) -> int {
        self.ring.wpos()
    }

    /// The writer's lap, as the `u32` it is stored in.
    pub closed spec fn write_lap(&self) -> int {
        lapm(self.ring.wlap())
    }

    /// The reader's lap, as the `u32` it is stored in.
    pub closed spec fn read_lap(&self) -> int {
        lapm(self.ring.rlap())
    }

    /// A well-formed queue holds at most its capacity and has at least one
    /// slot.
    pub proof fn lemma_wf(&self)
        requires
            self.wf(),
        ensures
            self@.len() <= self.capacity(),
            1 <= self.capacity() <= u32::MAX,
            0 <= self.write_lap() < 0x1_0000_0000,
    {
        self.ring.lemma_wf();
    }

    /// Creates a queue with `cap` slots (one slot when `cap` is 0).
    pub fn new(cap: u32) -> (q: Self)
        requires
            cap <= MAX_CAP,
        ensures
            q@ == Seq::<T>::empty(),
            q.capacity() == raw_cap(cap),
            1 <= cap ==> q.capacity() == cap,
            cap == 0 ==> q.capacity() == 1,
            !q.closed(),
            q.write_lap() == 0,
            q.read_lap() == 1,
            q.head() == 0,
            q.tail() == 0,
    {
        let raw = raw_capacity(cap);
        let q = MpmcBounded { ring: Ring::new(raw), closed: false };
        proof {
            lemma_lapm_step(0, 0);
            lemma_lapm_step(1, 0);
        }
        q
    }

    /// Closes the queue: later sends fail, remaining messages can still be
    /// received.
    pub fn close(&mut self)
        ensures
            final(self).closed(),
            final(self)@ == old(self)@,
            final(self).capacity() == old(self).capacity(),
            final(self).write_lap() == old(self).write_lap(),
            final(self).read_lap() == old(self).read_lap(),
            final(self).head() == old(self).head(),
            final(self).tail() == old(self).tail(),
    {
        proof {
            use_type_invariant(&*self);
        }
        self.closed = true;
    }

    /// Whether the queue was closed.
    pub fn is_close(&self) -> (b: bool)
        ensures
            b == self.closed(),
    {
        self.closed
    }

    /// The number of messages in the queue.
    pub fn length(&self) -> (n: u32)
        ensures
            n == self@.len(),
    {
        proof {
            use_type_invariant(self);
            self.ring.lemma_wf();
        }
        self.ring.length()
    }

    /// Selects the slot for the next write: `Closed` when the queue is
    /// closed, otherwise `Success` when a slot is free and `Failed` when the
    /// queue is full. Returns the slot index and the slot's stamp with it: the
    /// writer's lap for a free slot, one lap less for a full one.
    pub fn select_bucket_4_send(&self) -> (res: (u32, u32, State))
        ensures
            res.2 == (if self.closed() {
                State::Closed
            } else if self@.len() < self.capacity() {
                State::Success
            } else {
                State::Failed
            }),
            res.0 == self.tail(),
            res.2 == State::Success ==> res.1 == self.write_lap(),
            res.2 == State::Failed ==> res.1 == (self.write_lap() + 0xffff_ffff) % 0x1_0000_0000,
            res.2 == State::Closed ==> res.1 == 0,
    {
        proof {
            use_type_invariant(self);
            self.ring.lemma_wf();
        }
        let (idx, elem_lap, free) = self.ring.select_send();
        if self.closed {
            return (idx, 0, State::Closed);
        }
        if free {
            return (idx, elem_lap, State::Success);
        }
        proof {
            // A full ring is one round ahead of the reader, so the writer's
            // lap is at least 2.
            lemma_lapm_step(self.ring.wlap() - 1, 1);
        }
        (idx, elem_lap, State::Failed)
    }

    /// Selects the slot for the next read: true when a message is there.
    pub fn select_bucket_4_recv(&self) -> (res: (u32, u32, bool))
        ensures
            res.2 == (self@.len() > 0),
            res.0 == self.head(),
            res.2 ==> res.1 == self.read_lap(),
            !res.2 ==> res.1 == (self.read_lap() + 0xffff_ffff) % 0x1_0000_0000,
    {
        proof {
            use_type_invariant(self);
            lemma_lapm_step(self.ring.rlap() - 1, 1);
        }
        self.ring.select_recv()
    }

    /// Sends without blocking: `Disconnected` when closed, `Full` when no
    /// slot is free, otherwise the message joins the back of the queue.
    pub fn try_send(&mut self, msg: T) -> (r: Result<(), TrySendError<T>>)
        ensures
            final(self).capacity() == old(self).capacity(),
            final(self).closed() == old(self).closed(),
            final(self).read_lap() == old(self).read_lap(),
            old(self).closed() ==> r == Err::<(), TrySendError<T>>(TrySendError::Disconnected(msg))
                && final(self)@ == old(self)@,
            !old(self).closed() && old(self)@.len() == old(self).capacity() ==> r == Err::<
                (),
                TrySendError<T>,
            >(TrySendError::Full(msg)) && final(self)@ == old(self)@,
            !old(self).closed() && old(self)@.len() < old(self).capacity() ==> r == Ok::<(), TrySendError<T>>(())
                && final(self)@ == old(self)@.push(msg),
            r is Ok ==> final(self).head() == old(self).head() && final(self).tail() == if old(
                self,
            ).tail() + 1 < old(self).capacity() {
                old(self).tail() + 1
            } else {
                0
            } && final(self).write_lap() == if old(self).tail() + 1 < old(self).capacity() {
                old(self).write_lap()
            } else {
                (old(self).write_lap() + 2) % 0x1_0000_0000
            },
            r is Err ==> *final(self) == *old(self),
            r is Ok ==> step(old(self)@, Event::Sent(msg)) == Some(final(self)@),
    {
        proof {
            use_type_invariant(&*self);
            self.ring.lemma_wf();
            lemma_lapm_step(self.ring.wlap(), 2);
        }
        let (_idx, _lap, state) = self.select_bucket_4_send();
        if state == State::Success {
            self.ring.commit_send(msg);
            Ok(())
        } else if state == State::Closed {
            Err(TrySendError::Disconnected(msg))
        } else {
            Err(TrySendError::Full(msg))
        }
    }

    /// Receives without blocking: the oldest message, or an error when the
    /// queue is empty.
    pub fn try_recv(&mut self) -> (r: Result<T, TryRecvError>)
        ensures
            final(self).capacity() == old(self).capacity(),
            final(self).closed() == old(self).closed(),
            final(self).write_lap() == old(self).write_lap(),
            final(self).tail() == old(self).tail(),
            old(self)@.len() == 0 ==> r == Err::<T, TryRecvError>(TryRecvError) && *final(self)
                == *old(self),
            old(self)@.len() > 0 ==> r == Ok::<T, TryRecvError>(old(self)@[0]) && final(self)@
                == old(self)@.drop_first(),
            final(self).head() == if old(self)@.len() > 0 && old(self).head() + 1 < old(
                self,
            ).capacity() {
                old(self).head() + 1
            } else if old(self)@.len() > 0 {
                0
            } else {
                old(self).head()
            },
            final(self).read_lap() == if old(self)@.len() > 0 && old(self).head() + 1 == old(
                self,
            ).capacity() {
                (old(self).read_lap() + 2) % 0x1_0000_0000
            } else {
                old(self).read_lap()
            },
            r matches Ok(m) ==> step(old(self)@, Event::Got(m)) == Some(final(self)@),
    {
        proof {
            use_type_invariant(&*self);
            self.ring.lemma_wf();
            lemma_lapm_step(self.ring.rlap(), 2);
        }
        let (_idx, _lap, ready) = self.select_bucket_4_recv();
        if !ready {
            return Err(TryRecvError);
        }
        match self.ring.commit_recv() {
            Some(m) => Ok(m),
            None => Err(TryRecvError),
        }
    }

    /// One step of a blocking send: done when the message was stored or the
    /// queue is closed, otherwise the caller waits and tries again with the
    /// message handed back.
    pub fn send(&mut self, msg: T) -> (r: Step<Result<(), SendError<T>>, T>)
        ensures
            !(r == Step::<Result<(), SendError<T>>, T>::Done(Ok(()))) ==> *final(self) == *old(self),
            final(self).capacity() == old(self).capacity(),
            final(self).closed() == old(self).closed(),
            old(self).closed() ==> r == Step::<Result<(), SendError<T>>, T>::Done(
                Err(SendError(msg)),
            ) && final(self)@ == old(self)@,
            !old(self).closed() && old(self)@.len() == old(self).capacity() ==> r == Step::<
                Result<(), SendError<T>>,
                T,
            >::Wait(msg) && final(self)@ == old(self)@,
            !old(self).closed() && old(self)@.len() < old(self).capacity() ==> r == Step::<
                Result<(), SendError<T>>,
                T,
            >::Done(Ok(())) && final(self)@ == old(self)@.push(msg),
            r == Step::<Result<(), SendError<T>>, T>::Done(Ok(())) ==> step(old(self)@, Event::Sent(msg))
                == Some(final(self)@),
    {
        match self.try_send(msg) {
            Ok(()) => Step::Done(Ok(())),
            Err(TrySendError::Disconnected(m)) => Step::Done(Err(SendError(m))),
            Err(TrySendError::Full(m)) => Step::Wait(m),
        }
    }

    /// One step of a blocking receive: done with the oldest message, or with
    /// an error when the queue is empty and closed; otherwise the caller
    /// waits and tries again.
    pub fn recv(&mut self) -> (r: Step<Result<T, RecvError>, ()>)
        ensures
            !(r matches Step::Done(Ok(_))) ==> *final(self) == *old(self),
            final(self).capacity() == old(self).capacity(),
            final(self).closed() == old(self).closed(),
            final(self).write_lap() == old(self).write_lap(),
            final(self).tail() == old(self).tail(),
            old(self)@.len() > 0 ==> r == Step::<Result<T, RecvError>, ()>::Done(Ok(old(self)@[0]))
                && final(self)@ == old(self)@.drop_first(),
            old(self)@.len() == 0 && old(self).closed() ==> r == Step::<
                Result<T, RecvError>,
                (),
            >::Done(Err(RecvError)) && final(self)@ == old(self)@,
            old(self)@.len() == 0 && !old(self).closed() ==> r == Step::<
                Result<T, RecvError>,
                (),
            >::Wait(()) && final(self)@ == old(self)@,
            r matches Step::Done(Ok(m)) ==> step(old(self)@, Event::Got(m)) == Some(final(self)@),
    {
        match self.try_recv() {
            Ok(m) => Step::Done(Ok(m)),
            Err(_) => {
                if self.closed {
                    Step::Done(Err(RecvError))
                } else {
                    Step::Wait(())
                }
            },
        }
    }

    /// Number of slots.
    pub fn get_cap(&self) -> (c: u32)
        ensures
            c == self.capacity(),
    {
        self.ring.get_cap()
    }
}

} // verus!
