//! The lap-stamped ring buffer shared by every bounded queue.
//!
//! A position is packed in a `u64`: the low 32 bits hold the slot index and
//! the high 32 bits hold the lap. Writers use even laps and readers odd laps;
//! a slot stamped with the lap of one side is ready for that side. Laps are
//! `u32` values that wrap around; the proofs follow the laps as unbounded
//! counters and compare their values modulo `2^32`.

use vstd::prelude::*;
use crate::queue::elem::ElemArr;

verus! {

/// One lap in the packed metadata (`1 << 32`).
pub const LAP_UNIT: u64 = 0x1_0000_0000;

/// `x` is `q` laps and `r` slots.
pub proof fn lemma_split(x: int, q: int, r: int)
    requires
        0 <= r < LAP_UNIT,
        x == q * LAP_UNIT + r,
    ensures
        x / (LAP_UNIT as int) == q,
        x % (LAP_UNIT as int) == r,
{
    vstd::arithmetic::div_mod::lemma_fundamental_div_mod_converse(x, LAP_UNIT as int, q, r);
}

/// The slot index of a packed position.
fn pos_of(meta: u64) -> (p: u32)
    ensures
        p == meta % LAP_UNIT,
    no_unwind
{
    assert((meta as u32) == meta % 0x1_0000_0000u64) by (bit_vector);
    meta as u32
}

/// The lap of a packed position.
fn lap_of(meta: u64) -> (l: u32)
    ensures
        l == meta / LAP_UNIT,
    no_unwind
{
    assert(((meta >> 32u64) as u32) == meta / 0x1_0000_0000u64) by (bit_vector);
    (meta >> 32u64) as u32
}

/// The packed position of slot 0 on lap `lap`.
fn pack_lap(lap: u32) -> (m: u64)
    ensures
        m == lap * LAP_UNIT,
    no_unwind
{
    assert(((lap as u64) << 32u64) == (lap as u64) * 0x1_0000_0000u64) by (bit_vector);
    (lap as u64) << 32u64
}

/// `x` modulo `2^32`: a lap counter as a `u32` holds it.
pub open spec fn lapm(x: int) -> int {
    x % (LAP_UNIT as int)
}

/// Stepping a lap counter by `d` steps its `u32` value by `d`, wrapping
/// around.
pub proof fn lemma_lapm_step(x: int, d: int)
    requires
        x >= 0,
        x + d >= 0,
        -1 <= d <= 2,
    ensures
        0 <= lapm(x) < LAP_UNIT,
        lapm(x + d) == if 0 <= lapm(x) + d < LAP_UNIT {
            lapm(x) + d
        } else if lapm(x) + d < 0 {
            lapm(x) + d + LAP_UNIT
        } else {
            lapm(x) + d - LAP_UNIT
        },
{
    let q = x / (LAP_UNIT as int);
    let r = x % (LAP_UNIT as int);
    vstd::arithmetic::div_mod::lemma_fundamental_div_mod(x, LAP_UNIT as int);
    if 0 <= r + d < LAP_UNIT {
        lemma_split(x + d, q, r + d);
    } else if r + d < 0 {
        lemma_split(x + d, q - 1, r + d + LAP_UNIT);
    } else {
        lemma_split(x + d, q + 1, r + d - LAP_UNIT);
    }
}

/// Adds `d` to a lap, wrapping around at `2^32`.
fn lap_add(lap: u32, d: u32) -> (r: u32)
    requires
        d <= 2,
    ensures
        r == (lap + d) % (LAP_UNIT as int),
    no_unwind
{
    if lap > u32::MAX - d {
        lap - (u32::MAX - d) - 1
    } else {
        lap + d
    }
}

/// The slot index as a `usize`.
fn slot(idx: u32) -> (i: usize)
    ensures
        i == idx,
    no_unwind
{
    idx as usize
}

/// A ring of slots with a reader position and a writer position.
pub(crate) struct Ring<T> {
    pub(crate) buffer: Vec<ElemArr<T>>,
    pub(crate) capacity: u32,
    pub(crate) read_meta: u64,
    pub(crate) write_meta: u64,
    /// The writer's lap as an unbounded counter.
    pub(crate) wl: Ghost<nat>,
    /// The reader's lap as an unbounded counter.
    pub(crate) rl: Ghost<nat>,
}

impl<T> Ring<T> {
    /// Number of slots.
    pub(crate) open spec fn cap(&self) -> int {
        self.capacity as int
    }

    /// Slot index of the reader.
    pub(crate) open spec fn rpos(&self) -> int {
        (self.read_meta % LAP_UNIT) as int
    }

    /// The lap half of the reader's metadata.
    pub(crate) open spec fn rfield(&self) -> int {
        (self.read_meta / LAP_UNIT) as int
    }

    /// Slot index of the writer.
    pub(crate) open spec fn wpos(&self) -> int {
        (self.write_meta % LAP_UNIT) as int
    }

    /// The lap half of the writer's metadata.
    pub(crate) open spec fn wfield(&self) -> int {
        (self.write_meta / LAP_UNIT) as int
    }

    /// The writer's lap counter.
    pub(crate) open spec fn wlap(&self) -> int {
        self.wl@ as int
    }

    /// The reader's lap counter.
    pub(crate) open spec fn rlap(&self) -> int {
        self.rl@ as int
    }

    /// Reader and writer are on the same round of the ring.
    pub(crate) open spec fn same_round(&self) -> bool {
        self.rlap() == self.wlap() + 1
    }

    /// Number of messages held.
    pub(crate) open spec fn count(&self) -> int {
        if self.same_round() {
            self.wpos() - self.rpos()
        } else {
            self.cap() - self.rpos() + self.wpos()
        }
    }

    /// The slot that holds the `j`-th oldest message.
    pub(crate) open spec fn index_of(&self, j: int) -> int {
        if self.rpos() + j < self.cap() {
            self.rpos() + j
        } else {
            self.rpos() + j - self.cap()
        }
    }

    /// The stamp and content that slot `k` must have.
    pub(crate) open spec fn slot_ok(&self, k: int) -> bool {
        let e = self.buffer@[k];
        let wl = self.wlap();
        if self.same_round() {
            if k < self.rpos() {
                e.lap == lapm(wl + 2) && e.msg is None
            } else if k < self.wpos() {
                e.lap == lapm(wl + 1) && e.msg is Some
            } else {
                e.lap == lapm(wl) && e.msg is None
            }
        } else {
            if k < self.wpos() {
                e.lap == lapm(wl + 1) && e.msg is Some
            } else if k < self.rpos() {
                e.lap == lapm(wl) && e.msg is None
            } else {
                e.lap == lapm(wl - 1) && e.msg is Some
            }
        }
    }

    /// Well-formedness of the ring.
    pub(crate) open spec fn wf(&self) -> bool {
        &&& self.buffer@.len() == self.capacity
        &&& 1 <= self.capacity
        &&& self.rpos() < self.cap()
        &&& self.wpos() < self.cap()
        &&& self.rfield() == lapm(self.rlap())
        &&& self.wfield() == lapm(self.wlap())
        &&& self.wlap() % 2 == 0
        &&& self.rlap() % 2 == 1
        &&& ((self.same_round() && self.rpos() <= self.wpos()) || (self.rlap() + 1 == self.wlap()
            && self.wpos() <= self.rpos()))
        &&& forall|k: int| 0 <= k < self.cap() ==> #[trigger] self.slot_ok(k)
    }

    /// The messages held, oldest first.
    pub(crate) open spec fn content(&self) -> Seq<T> {
        Seq::new(self.count() as nat, |j: int| self.buffer@[self.index_of(j)].msg->0)
    }

    /// Basic facts that follow from well-formedness.
    pub(crate) proof fn lemma_wf(&self)
        requires
            self.wf(),
        ensures
            0 <= self.count() <= self.cap(),
            self.content().len() == self.count(),
            self.cap() <= u32::MAX,
            0 <= lapm(self.wlap()) < LAP_UNIT,
    {
        lemma_lapm_step(self.wlap(), 0);
    }

    /// An empty ring of `cap` slots.
    pub(crate) fn new(cap: u32) -> (r: Self)
        requires
            cap >= 1,
        ensures
            r.wf(),
            r.content() == Seq::<T>::empty(),
            r.cap() == cap,
            r.wlap() == 0,
            r.wpos() == 0,
            r.rpos() == 0,
            r.rlap() == 1,
    {
        let mut buffer: Vec<ElemArr<T>> = Vec::new();
        let mut i: u32 = 0;
        while i < cap
            invariant
                i <= cap,
                buffer@.len() == i,
                forall|k: int| 0 <= k < i ==> buffer@[k].lap == 0 && buffer@[k].msg is None,
            decreases cap - i,
        {
            buffer.push(ElemArr::new());
            i = i + 1;
        }
        let r = Ring {
            buffer,
            capacity: cap,
            read_meta: LAP_UNIT,
            write_meta: 0,
            wl: Ghost(0),
            rl: Ghost(1),
        };
        proof {
            lemma_split(LAP_UNIT as int, 1, 0);
            lemma_split(0, 0, 0);
            lemma_lapm_step(0, 0);
            lemma_lapm_step(1, 0);
            assert forall|k: int| 0 <= k < r.cap() implies #[trigger] r.slot_ok(k) by {}
            assert(r.content() =~= Seq::<T>::empty());
        }
        r
    }

    /// Chooses the slot for the next write, without changing anything.
    ///
    /// Returns the slot index, its stamp, and whether it is free; it is free
    /// exactly when the ring is not full. A full slot's stamp is one less
    /// than the writer's lap.
    pub(crate) fn select_send(&self) -> (res: (u32, u32, bool))
        requires
            self.wf(),
        ensures
            res.0 == self.wpos(),
            res.2 == (self.count() < self.cap()),
            res.2 ==> res.1 == lapm(self.wlap()),
            !res.2 ==> res.1 == lapm(self.wlap() - 1),
    {
        let meta = self.write_meta;
        let idx = pos_of(meta);
        let elem_lap = self.buffer[slot(idx)].load_lap();
        let lap = lap_of(meta);
        proof {
            assert(self.slot_ok(idx as int));
            if self.count() == self.cap() {
                lemma_lapm_step(self.wlap() - 1, 1);
            }
        }
        (idx, elem_lap, lap == elem_lap)
    }

    /// Chooses the slot for the next read, without changing anything.
    ///
    /// Returns the slot index, its stamp, and whether it holds a message; it
    /// does exactly when the ring is not empty.
    pub(crate) fn select_recv(&self) -> (res: (u32, u32, bool))
        requires
            self.wf(),
        ensures
            res.0 == self.rpos(),
            res.2 == (self.count() > 0),
            res.2 ==> res.1 == lapm(self.rlap()),
            !res.2 ==> res.1 == lapm(self.rlap() - 1),
    {
        let meta = self.read_meta;
        let idx = pos_of(meta);
        let lap = lap_of(meta);
        let elem_lap = self.buffer[slot(idx)].load_lap();
        proof {
            assert(self.slot_ok(idx as int));
            lemma_lapm_step(self.rlap() - 1, 1);
        }
        if lap == elem_lap {
            (idx, elem_lap, true)
        } else {
            // The reader is one lap ahead of the slot: nothing was written there
            // on this lap yet.
            assert(lap > elem_lap);
            (idx, elem_lap, false)
        }
    }

    /// Stores `msg` in the slot chosen by `select_send` and advances the
    /// writer, wrapping to slot 0 of the next writer lap at the end.
    pub(crate) fn commit_send(&mut self, msg: T)
        requires
            old(self).wf(),
            old(self).count() < old(self).cap(),
        ensures
            final(self).wf(),
            final(self).content() == old(self).content().push(msg),
            final(self).cap() == old(self).cap(),
            final(self).rpos() == old(self).rpos(),
            final(self).rlap() == old(self).rlap(),
            final(self).wpos() == if old(self).wpos() + 1 < old(self).cap() {
                old(self).wpos() + 1
            } else {
                0
            },
            final(self).wlap() == if old(self).wpos() + 1 < old(self).cap() {
                old(self).wlap()
            } else {
                old(self).wlap() + 2
            },
        no_unwind
    {
        let ghost pre = *self;
        let meta = self.write_meta;
        let idx = pos_of(meta);
        let lap = lap_of(meta);
        let elem_lap = self.buffer[slot(idx)].load_lap();
        proof {
            assert(pre.slot_ok(idx as int));
            lemma_split(meta as int, pre.wfield(), pre.wpos());
            lemma_lapm_step(pre.wlap(), 0);
            lemma_lapm_step(pre.wlap(), 1);
            lemma_lapm_step(pre.wlap(), 2);
            lemma_lapm_step(pre.wlap() + 2, -1);
        }
        if idx + 1 < self.capacity {
            self.write_meta = meta + 1;
            proof {
                lemma_split(self.write_meta as int, pre.wfield(), pre.wpos() + 1);
            }
        } else {
            let next = lap_add(lap, 2);
            self.write_meta = pack_lap(next);
            self.wl = Ghost((pre.wlap() + 2) as nat);
            proof {
                lemma_split(self.write_meta as int, next as int, 0);
            }
        }
        self.buffer[slot(idx)].write(elem_lap + 1, msg);
        proof {
            assert forall|k: int| 0 <= k < self.cap() implies #[trigger] self.slot_ok(k) by {
                assert(pre.slot_ok(k));
            }
            assert(self.count() == pre.count() + 1);
            assert forall|j: int| 0 <= j < pre.count() implies self.index_of(j) == pre.index_of(j)
                && self.index_of(j) != pre.wpos() by {}
            assert(self.index_of(pre.count()) == pre.wpos());
            assert(self.content() =~= pre.content().push(msg));
        }
    }

    /// Takes the oldest message out of the slot chosen by `select_recv` and
    /// advances the reader, wrapping to slot 0 of the next reader lap at the
    /// end.
    pub(crate) fn commit_recv(&mut self) -> (m: Option<T>)
        requires
            old(self).wf(),
            old(self).count() > 0,
        ensures
            final(self).wf(),
            m == Some(old(self).content()[0]),
            final(self).content() == old(self).content().drop_first(),
            final(self).rpos() == if old(self).rpos() + 1 < old(self).cap() {
                old(self).rpos() + 1
            } else {
                0
            },
            final(self).rlap() == if old(self).rpos() + 1 < old(self).cap() {
                old(self).rlap()
            } else {
                old(self).rlap() + 2
            },
            final(self).cap() == old(self).cap(),
            final(self).write_meta == old(self).write_meta,
            final(self).wl == old(self).wl,
        no_unwind
    {
        let ghost pre = *self;
        let meta = self.read_meta;
        let idx = pos_of(meta);
        let lap = lap_of(meta);
        proof {
            assert(pre.slot_ok(idx as int));
            lemma_split(meta as int, pre.rfield(), pre.rpos());
            lemma_lapm_step(pre.rlap(), 1);
            lemma_lapm_step(pre.rlap(), 2);
            lemma_lapm_step(pre.wlap(), 0);
            lemma_lapm_step(pre.wlap(), 1);
            lemma_lapm_step(pre.wlap(), 2);
        }
        if idx + 1 < self.capacity {
            self.read_meta = meta + 1;
            proof {
                lemma_split(self.read_meta as int, pre.rfield(), pre.rpos() + 1);
            }
        } else {
            let next = lap_add(lap, 2);
            self.read_meta = pack_lap(next);
            self.rl = Ghost((pre.rlap() + 2) as nat);
            proof {
                lemma_split(self.read_meta as int, next as int, 0);
            }
        }
        let m = self.buffer[slot(idx)].read(lap_add(lap, 1));
        proof {
            assert forall|k: int| 0 <= k < self.cap() implies #[trigger] self.slot_ok(k) by {
                assert(pre.slot_ok(k));
            }
            assert(self.count() == pre.count() - 1);
            assert(pre.index_of(0) == pre.rpos());
            assert forall|j: int| 0 <= j < self.count() implies self.index_of(j) == pre.index_of(j + 1)
                && self.index_of(j) != pre.rpos() by {}
            assert(self.content() =~= pre.content().drop_first());
        }
        m
    }

    /// Computes the number of messages held from the two slot indexes, and,
    /// when they are equal, from whether the writer's slot is free.
    pub(crate) fn length(&self) -> (n: u32)
        requires
            self.wf(),
        ensures
            n == self.count(),
    {
        proof {
            self.lemma_wf();
        }
        let head = pos_of(self.read_meta);
        let tail = pos_of(self.write_meta);
        if tail > head {
            return tail - head;
        }
        if tail < head {
            return self.capacity - head + tail;
        }
        let (_idx, _lap, free) = self.select_send();
        if free {
            0
        } else {
            self.capacity
        }
    }

    /// The writer's lap as stored.
    pub(crate) fn write_field(&self) -> (l: u32)
        ensures
            l == self.wfield(),
    {
        lap_of(self.write_meta)
    }

    /// The writer's slot index.
    pub(crate) fn write_pos(&self) -> (p: u32)
        ensures
            p == self.wpos(),
    {
        pos_of(self.write_meta)
    }

    /// The reader's lap as stored.
    pub(crate) fn read_field(&self) -> (l: u32)
        ensures
            l == self.rfield(),
    {
        lap_of(self.read_meta)
    }

    /// The reader's slot index.
    pub(crate) fn read_pos(&self) -> (p: u32)
        ensures
            p == self.rpos(),
    {
        pos_of(self.read_meta)
    }

    /// Number of slots.
    pub(crate) fn get_cap(&self) -> (c: u32)
        ensures
            c == self.cap(),
    {
        self.capacity
    }
}

} // verus!
