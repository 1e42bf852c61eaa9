//! One slot of a bounded queue: a lap stamp and the message it holds.

use vstd::prelude::*;

verus! {

/// A slot of the ring buffer.
///
/// The lap stamp tells which side may use the slot next: a writer on lap `l`
/// may fill the slot when its stamp is `l`, and a reader on lap `l` may empty
/// it when its stamp is `l`.
pub(crate) struct ElemArr<T> {
    pub(crate) lap: u32,
    pub(crate) msg: Option<T>,
}

impl<T> ElemArr<T> {
    /// A fresh slot: stamp 0 and no message.
    pub(crate) fn new() -> (e: Self)
        ensures
            e.lap == 0,
            e.msg is None,
    {
        ElemArr { lap: 0, msg: None }
    }

    /// The current lap stamp.
    pub(crate) fn load_lap(&self) -> (l: u32)
        ensures
            l == self.lap,
        no_unwind
    {
        self.lap
    }

    /// Stores `msg` and stamps the slot with `lap`, making it available to the
    /// other side.
    pub(crate) fn write(&mut self, lap: u32, msg: T)
        ensures
            final(self).lap == lap,
            final(self).msg == Some(msg),
        no_unwind
    {
        self.msg = Some(msg);
        self.lap = lap;
    }

    /// Takes the message out and stamps the slot with `lap`.
    pub(crate) fn read(&mut self, lap: u32) -> (m: Option<T>)
        ensures
            m == old(self).msg,
            final(self).lap == lap,
            final(self).msg is None,
        no_unwind
    {
        let mut taken: Option<T> = None;
        std::mem::swap(&mut self.msg, &mut taken);
        self.lap = lap;
        taken
    }
}

} // verus!
