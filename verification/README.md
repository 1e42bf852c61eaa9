# omango

Bounded and unbounded FIFO channels, a wait group, exponential backoff and
result collectors. The logic of each is a single-owner state machine written
in Verus, with its behaviour stated in `requires` / `ensures` and proved.

## Layout

- `src/` — the verified library.
  - `ring.rs`: the lap-stamped ring buffer that the bounded queues share,
    with the packed reader and writer metadata (slot index in the low 32 bits,
    lap in the high 32 bits).
  - `queue/`: bounded queues (`SpscBounded`, `MpmcBounded`), unbounded queues
    made of a chain of bounded ones (`SpscUnbounded`, `MpmcUnbounded`), slots,
    and the list of parked waiters (`Metadata`).
  - `mpmc/`, `spsc/`: the queues of the older layout and their waiter lists.
  - `wg.rs`, `backoff.rs`, `common.rs`, `error.rs`.
  - `single/`: the collector that waits for a fixed set of keyed results
    (`source`) and the keyed table of calls in flight (`flight`).
- `tests/` — tests on concrete values.
- `app/` — the thread-safe handles: each queue behind a lock, blocked
  operations parked on a futex and woken through the verified waiter lists,
  the spin lock, cache padding, and the concurrent wait group and collectors.

Blocking operations are verified as one step at a time: a step either
finishes with a result or says that the caller must wait and try again, and
`app/` runs that loop.
