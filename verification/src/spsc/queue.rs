//! Bounded single-producer-single-consumer queue with room for `size`
//! messages (one when `size` is 0) whose closed state is a flag checked before every send and every
//! blocking receive. Its laps wrap around at `2^32`.

use vstd::prelude::*;
use crate::common::{Operation, Selector};
use crate::error::{RecvError, SendError, TryRecvError, TrySendError};
use crate::queue::bounded::raw_cap;
use crate::queue::bounded::{Event, step};
use crate::queue::state::Step;
use crate::ring::{Ring, LAP_UNIT, lapm, lemma_lapm_step};

verus! {

/// Single-producer-single-consumer queue.
pub struct Spsc<T> {
    ring: Ring<T>,
    closed: bool,
}

impl<T> Spsc<T> {
    /// Well-formedness; every value of the type has it.
    #[verifier::type_invariant]
    pub closed spec fn wf(&self) -> bool {
        self.ring.wf()
    }

    /// The messages in the queue, oldest first.
    pub closed spec fn view(&self) -> Seq<T> {
        self.ring.content()
    }

    /// Number of slots.
    pub closed spec fn capacity(&self) -> int {
        self.ring.cap()
    }

    /// The queue was closed.
    pub closed spec fn closed(&self) -> bool {
        self.closed
    }

    /// Slot index of the reader.
    pub closed spec fn head(&self) -> int {
        self.ring.rpos()
    }

    /// Slot index of the writer.
    pub closed spec fn tail(&self) -> int {
        self.ring.wpos()
    }

    /// The writer's lap, as the `u32` it is stored in.
    pub closed spec fn write_lap(&self) -> int {
        lapm(self.ring.wlap())
    }

    /// The reader's lap, as the `u32` it is stored in.
    pub closed spec fn read_lap(&self) -> int {
        lapm(self.ring.rlap())
    }

    /// A well-formed queue holds at most its capacity and has at least one
    /// slot.
    pub proof fn lemma_wf(&self)
        requires
            self.wf(),
        ensures
            self@.len() <= self.capacity(),
            1 <= self.capacity() <= u32::MAX,
    {
        self.ring.lemma_wf();
    }

    /// Creates a queue with `size` slots (one slot when `size` is 0).
    pub fn new(size: u32) -> (q: Self)
        ensures
            q@ == Seq::<T>::empty(),
            q.capacity() == raw_cap(size),
            1 <= size ==> q.capacity() == size,
            size == 0 ==> q.capacity() == 1,
            !q.closed(),
            q.write_lap() == 0,
            q.read_lap() == 1,
            q.head() == 0,
            q.tail() == 0,
    {
        let cap: u32 = if size > 0 {
            size
        } else {
            1
        };
        let q = Spsc { ring: Ring::new(cap), closed: false };
        proof {
            lemma_lapm_step(0, 0);
            lemma_lapm_step(1, 0);
        }
        q
    }

    /// Sends without blocking: `Disconnected` when closed, `Full` when no
    /// slot is free, otherwise the message joins the back of the queue.
    pub fn try_send(&mut self, msg: T) -> (r: Result<(), TrySendError<T>>)
        ensures
            final(self).capacity() == old(self).capacity(),
            final(self).closed() == old(self).closed(),
            old(self).closed() ==> r == Err::<(), TrySendError<T>>(TrySendError::Disconnected(msg))
                && final(self)@ == old(self)@,
            !old(self).closed() && old(self)@.len() == old(self).capacity() ==> r == Err::<
                (),
                TrySendError<T>,
            >(TrySendError::Full(msg)) && final(self)@ == old(self)@,
            !old(self).closed() && old(self)@.len() < old(self).capacity() ==> r == Ok::<(), TrySendError<T>>(())
                && final(self)@ == old(self)@.push(msg),
            r is Ok ==> final(self).head() == old(self).head() && final(self).tail() == if old(
                self,
            ).tail() + 1 < old(self).capacity() {
                old(self).tail() + 1
            } else {
                0
            } && final(self).write_lap() == if old(self).tail() + 1 < old(self).capacity() {
                old(self).write_lap()
            } else {
                (old(self).write_lap() + 2) % (LAP_UNIT as int)
            },
            r is Err ==> *final(self) == *old(self),
            r is Ok ==> step(old(self)@, Event::Sent(msg)) == Some(final(self)@),
    {
        proof {
            use_type_invariant(&*self);
            self.ring.lemma_wf();
            lemma_lapm_step(self.ring.wlap(), 2);
        }
        if self.closed {
            return Err(TrySendError::Disconnected(msg));
        }
        let mut selector = Selector::new();
        if !self.select_bucket(Operation::Sending, &mut selector) {
            return Err(TrySendError::Full(msg));
        }
        self.ring.commit_send(msg);
        Ok(())
    }

    /// Receives without blocking: the oldest message, or an error when the
    /// queue is empty.
    pub fn try_recv(&mut self) -> (r: Result<T, TryRecvError>)
        ensures
            final(self).capacity() == old(self).capacity(),
            final(self).closed() == old(self).closed(),
            final(self).write_lap() == old(self).write_lap(),
            final(self).tail() == old(self).tail(),
            old(self)@.len() == 0 ==> r == Err::<T, TryRecvError>(TryRecvError) && *final(self)
                == *old(self),
            old(self)@.len() > 0 ==> r == Ok::<T, TryRecvError>(old(self)@[0]) && final(self)@
                == old(self)@.drop_first(),
            old(self)@.len() > 0 ==> final(self).head() == if old(self).head() + 1 < old(
                self,
            ).capacity() {
                old(self).head() + 1
            } else {
                0
            },
            r matches Ok(m) ==> step(old(self)@, Event::Got(m)) == Some(final(self)@),
    {
        proof {
            use_type_invariant(&*self);
            self.ring.lemma_wf();
        }
        let mut selector = Selector::new();
        if !self.select_bucket(Operation::Receiving, &mut selector) {
            return Err(TryRecvError);
        }
        match self.ring.commit_recv() {
            Some(m) => Ok(m),
            None => Err(TryRecvError),
        }
    }

    /// One step of a blocking send: done when the message was stored or the
    /// queue is closed, otherwise the caller waits and tries again with the
    /// message handed back.
    pub fn send(&mut self, msg: T) -> (r: Step<Result<(), SendError<T>>, T>)
        ensures
            !(r == Step::<Result<(), SendError<T>>, T>::Done(Ok(()))) ==> *final(self) == *old(self),
            final(self).capacity() == old(self).capacity(),
            final(self).closed() == old(self).closed(),
            old(self).closed() ==> r == Step::<Result<(), SendError<T>>, T>::Done(
                Err(SendError(msg)),
            ) && final(self)@ == old(self)@,
            !old(self).closed() && old(self)@.len() == old(self).capacity() ==> r == Step::<
                Result<(), SendError<T>>,
                T,
            >::Wait(msg) && final(self)@ == old(self)@,
            !old(self).closed() && old(self)@.len() < old(self).capacity() ==> r == Step::<
                Result<(), SendError<T>>,
                T,
            >::Done(Ok(())) && final(self)@ == old(self)@.push(msg),
            r == Step::<Result<(), SendError<T>>, T>::Done(Ok(())) ==> step(old(self)@, Event::Sent(msg))
                == Some(final(self)@),
    {
        match self.try_send(msg) {
            Ok(()) => Step::Done(Ok(())),
            Err(TrySendError::Disconnected(m)) => Step::Done(Err(SendError(m))),
            Err(TrySendError::Full(m)) => Step::Wait(m),
        }
    }

    /// One step of a blocking receive: an error as soon as the queue is
    /// closed (remaining messages are left to `try_recv`), otherwise the
    /// oldest message, or a wait when the queue is empty.
    pub fn recv(&mut self) -> (r: Step<Result<T, RecvError>, ()>)
        ensures
            !(r matches Step::Done(Ok(_))) ==> *final(self) == *old(self),
            final(self).capacity() == old(self).capacity(),
            final(self).closed() == old(self).closed(),
            old(self).closed() ==> r == Step::<Result<T, RecvError>, ()>::Done(Err(RecvError))
                && final(self)@ == old(self)@,
            !old(self).closed() && old(self)@.len() > 0 ==> r == Step::<Result<T, RecvError>, ()>::Done(
                Ok(old(self)@[0]),
            ) && final(self)@ == old(self)@.drop_first(),
            !old(self).closed() && old(self)@.len() == 0 ==> r == Step::<
                Result<T, RecvError>,
                (),
            >::Wait(()) && final(self)@ == old(self)@,
            r matches Step::Done(Ok(m)) ==> step(old(self)@, Event::Got(m)) == Some(final(self)@),
    {
        if self.closed {
            return Step::Done(Err(RecvError));
        }
        match self.try_recv() {
            Ok(m) => Step::Done(Ok(m)),
            Err(_) => Step::Wait(()),
        }
    }

    /// Closes the queue. Returns true when this call closed it, in which case
    /// every parked sender and receiver must be woken.
    pub fn close(&mut self) -> (first: bool)
        ensures
            final(self).closed(),
            first == !old(self).closed(),
            final(self)@ == old(self)@,
            final(self).capacity() == old(self).capacity(),
            final(self).write_lap() == old(self).write_lap(),
            final(self).head() == old(self).head(),
            final(self).tail() == old(self).tail(),
    {
        proof {
            use_type_invariant(&*self);
        }
        let was = self.closed;
        self.closed = true;
        !was
    }

    /// Whether the queue was closed.
    pub fn is_close(&self) -> (b: bool)
        ensures
            b == self.closed(),
    {
        self.closed
    }

    /// Chooses the slot for `operation` and records it in `selector`.
    /// Returns true when that slot is ready: for sending, when the queue is
    /// not full; for receiving, when it is not empty.
    pub fn select_bucket(&self, operation: Operation, selector: &mut Selector) -> (ready: bool)
        ensures
            operation == Operation::Sending ==> ready == (self@.len() < self.capacity())
                && final(selector).idx == self.tail(),
            operation == Operation::Receiving ==> ready == (self@.len() > 0)
                && final(selector).idx == self.head(),
            operation == Operation::Sending && ready ==> final(selector).lap == self.write_lap(),
            operation == Operation::Sending && !ready ==> final(selector).lap == (self.write_lap()
                + 0xffff_ffff) % 0x1_0000_0000,
            operation == Operation::Receiving && ready ==> final(selector).lap == self.read_lap(),
            operation == Operation::Receiving && !ready ==> final(selector).lap == (self.read_lap()
                + 0xffff_ffff) % 0x1_0000_0000,
    {
        proof {
            use_type_invariant(self);
            self.ring.lemma_wf();
            lemma_lapm_step(self.ring.rlap() - 1, 1);
            if self.ring.count() == self.ring.cap() {
                lemma_lapm_step(self.ring.wlap() - 1, 1);
            }
        }
        let (idx, lap, ready) = match operation {
            Operation::Sending => self.ring.select_send(),
            Operation::Receiving => self.ring.select_recv(),
        };
        selector.set(idx, lap);
        ready
    }
}

} // verus!
