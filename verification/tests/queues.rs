use omango::common::{Operation, Selector};
use omango::error::{RecvError, SendError, TryRecvError, TrySendError};
use omango::mpmc::queue::Mpmc;
use omango::queue::bounded::{MpmcBounded, SpscBounded};
use omango::queue::state::{State, Step};
use omango::queue::unbounded::{MpmcUnbounded, SpscUnbounded, SUB_QUEUE_SIZE};
use omango::spsc::queue::Spsc;

fn is_send<T: Send>() {}

#[test]
fn spsc_bounds() {
    is_send::<SpscBounded<i32>>();
    is_send::<MpmcBounded<i32>>();
}

#[test]
fn unbound() {
    is_send::<SpscUnbounded<i32>>();
    is_send::<MpmcUnbounded<i32>>();
}

#[test]
fn tests_bounds() {
    is_send::<Spsc<i32>>();
    is_send::<Mpmc<i32>>();
}

#[test]
fn spsc_send_recv() {
    // Bounded.
    let mut b = SpscBounded::new(3);
    b.try_send(1).unwrap();
    assert_eq!(b.try_recv().unwrap(), 1);

    // Unbounded.
    let mut u = SpscUnbounded::new();
    u.send(1).unwrap();
    assert!(matches!(u.recv(), Step::Done(Ok(1))));
}

#[test]
fn spsc_send_shared_recv() {
    // Bounded: two sends through the same queue.
    let mut b = SpscBounded::new(4);
    assert!(matches!(b.send(1), Step::Done(Ok(()))));
    assert!(matches!(b.recv(), Step::Done(Ok(1))));
    assert!(matches!(b.send(2), Step::Done(Ok(()))));
    assert!(matches!(b.recv(), Step::Done(Ok(2))));

    // Unbounded.
    let mut u = SpscUnbounded::new();
    u.send(1).unwrap();
    assert!(matches!(u.recv(), Step::Done(Ok(1))));
    u.send(2).unwrap();
    assert!(matches!(u.recv(), Step::Done(Ok(2))));
}

#[test]
fn tests_send_recv() {
    let mut s = Spsc::new(4);
    assert!(matches!(s.send(1), Step::Done(Ok(()))));
    assert!(matches!(s.recv(), Step::Done(Ok(1))));

    let mut m = Mpmc::new(4);
    assert!(matches!(m.send(1), Step::Done(Ok(()))));
    assert!(matches!(m.recv(), Step::Done(Ok(1))));
}

#[test]
fn tests_send_shared_recv() {
    let mut s = Spsc::new(4);
    assert!(matches!(s.send(1), Step::Done(Ok(()))));
    assert!(matches!(s.recv(), Step::Done(Ok(1))));
    assert!(matches!(s.send(2), Step::Done(Ok(()))));
    assert!(matches!(s.recv(), Step::Done(Ok(2))));

    let mut m = Mpmc::new(4);
    assert!(matches!(m.send(1), Step::Done(Ok(()))));
    assert!(matches!(m.recv(), Step::Done(Ok(1))));
    assert!(matches!(m.send(2), Step::Done(Ok(()))));
    assert!(matches!(m.recv(), Step::Done(Ok(2))));
}

#[test]
fn zero_capacity_try_send_then_close() {
    // A queue created with size 0 holds one message.
    let mut q = SpscBounded::new(0);
    assert_eq!(q.try_send(1), Ok(()));
    assert_eq!(q.try_send(2), Err(TrySendError::Full(2)));
    q.close();
    assert_eq!(q.try_send(3), Err(TrySendError::Disconnected(3)));

    let mut m = MpmcBounded::new(0);
    assert_eq!(m.try_send(1), Ok(()));
    assert_eq!(m.try_send(2), Err(TrySendError::Full(2)));
    m.close();
    assert_eq!(m.try_send(3), Err(TrySendError::Disconnected(3)));

    // The older layout holds one message too.
    let mut o = Mpmc::new(0);
    assert_eq!(o.try_send(1), Ok(()));
    assert_eq!(o.try_send(2), Err(TrySendError::Full(2)));
    assert!(o.close());
    assert_eq!(o.try_send(3), Err(TrySendError::Disconnected(3)));
}

#[test]
fn try_recv_after_close_reads_remaining() {
    let mut q = SpscBounded::new(1);
    assert_eq!(q.try_recv(), Err(TryRecvError));
    q.try_send(5).unwrap();
    q.close();
    assert_eq!(q.try_recv(), Ok(5));
    assert_eq!(q.try_recv(), Err(TryRecvError));

    let mut m = Mpmc::new(1);
    assert_eq!(m.try_recv(), Err(TryRecvError));
    m.try_send(5).unwrap();
    m.close();
    assert_eq!(m.try_recv(), Ok(5));
    assert_eq!(m.try_recv(), Err(TryRecvError));
}

#[test]
fn blocking_steps_on_closed_queues() {
    // Newer layout: a closed queue still hands out what it holds.
    let mut q = MpmcBounded::new(2);
    q.try_send(7).unwrap();
    q.close();
    assert!(matches!(q.send(8), Step::Done(Err(SendError(8)))));
    assert!(matches!(q.recv(), Step::Done(Ok(7))));
    assert!(matches!(q.recv(), Step::Done(Err(RecvError))));

    // Older layout: a blocking receive fails as soon as the queue is closed.
    let mut o = Spsc::new(2);
    o.try_send(7).unwrap();
    o.close();
    assert!(matches!(o.recv(), Step::Done(Err(RecvError))));
    assert_eq!(o.try_recv(), Ok(7));
}

#[test]
fn blocking_steps_wait() {
    let mut q = SpscBounded::new(1);
    assert!(matches!(q.recv(), Step::Wait(())));
    assert!(matches!(q.send(1), Step::Done(Ok(()))));
    assert!(matches!(q.send(2), Step::Wait(2)));
}

#[test]
fn fifo_order_across_wrap() {
    let mut q = SpscBounded::new(3);
    let mut next_in = 0;
    let mut next_out = 0;
    for round in 0..10 {
        for _ in 0..(round % 3 + 1) {
            q.try_send(next_in).unwrap();
            next_in += 1;
        }
        while let Ok(v) = q.try_recv() {
            assert_eq!(v, next_out);
            next_out += 1;
        }
    }
    assert_eq!(next_in, next_out);
}

#[test]
fn length_is_the_number_held() {
    let q: SpscBounded<i32> = SpscBounded::new(4);
    assert_eq!(q.length(), 0);

    let mut q = SpscBounded::new(3);
    q.try_send(1).unwrap();
    assert_eq!(q.length(), 1);

    // Full queue of one slot.
    let mut q = SpscBounded::new(0);
    q.try_send(1).unwrap();
    assert_eq!(q.length(), 1);

    // Writer slot behind the reader slot.
    let mut q = MpmcBounded::new(4);
    for i in 0..4 {
        q.try_send(i).unwrap();
    }
    assert_eq!(q.length(), 4);
    q.try_recv().unwrap();
    q.try_recv().unwrap();
    q.try_send(4).unwrap();
    assert_eq!(q.length(), 3);
    while q.try_recv().is_ok() {}
    assert_eq!(q.length(), 0);
}

#[test]
fn capacities() {
    assert_eq!(SpscBounded::<i32>::new(0).get_cap(), 1);
    assert_eq!(SpscBounded::<i32>::new(5).get_cap(), 5);
    assert_eq!(MpmcBounded::<i32>::new(0).get_cap(), 1);
    let mut q = Mpmc::new(2);
    assert_eq!(q.try_send(1), Ok(()));
    assert_eq!(q.try_send(2), Ok(()));
    assert_eq!(q.try_send(3), Err(TrySendError::Full(3)));

    // A channel of capacity 1 takes one message.
    let mut q = Mpmc::new(1);
    assert_eq!(q.try_send(1), Ok(()));
    assert_eq!(q.try_send(2), Err(TrySendError::Full(2)));

    let mut s = Spsc::new(1);
    assert_eq!(s.try_send(1), Ok(()));
    assert_eq!(s.try_send(2), Err(TrySendError::Full(2)));
    let mut s = Spsc::new(0);
    assert_eq!(s.try_send(1), Ok(()));
    assert_eq!(s.try_send(2), Err(TrySendError::Full(2)));
}

#[test]
fn close_is_reported() {
    let mut q: MpmcBounded<i32> = MpmcBounded::new(1);
    assert!(!q.is_close());
    q.close();
    assert!(q.is_close());
    q.close();
    assert!(q.is_close());

    let mut o: Spsc<i32> = Spsc::new(1);
    assert!(o.close());
    assert!(!o.close());
    assert!(o.is_close());
}

#[test]
fn unbounded_grows_past_one_sub_queue() {
    let n = SUB_QUEUE_SIZE as i32 * 2 + 5;
    let mut u = SpscUnbounded::new();
    let mut m = MpmcUnbounded::new();
    for i in 0..n {
        u.send(i).unwrap();
        m.send(i).unwrap();
    }
    for i in 0..n {
        assert!(matches!(u.recv(), Step::Done(Ok(v)) if v == i));
        assert!(matches!(m.recv(), Step::Done(Ok(v)) if v == i));
    }
    assert!(matches!(u.recv(), Step::Wait(())));
    assert!(matches!(m.recv(), Step::Wait(())));
}

#[test]
fn unbounded_close() {
    let mut u = SpscUnbounded::new();
    u.send(1).unwrap();
    u.close();
    assert!(u.is_close());
    assert_eq!(u.send(2), Err(SendError(2)));
    assert!(matches!(u.recv(), Step::Done(Ok(1))));
    assert!(matches!(u.recv(), Step::Done(Err(RecvError))));
    u.close();
    assert!(u.is_close());

    let mut m: MpmcUnbounded<i32> = MpmcUnbounded::new();
    m.close();
    assert!(matches!(m.recv(), Step::Done(Err(RecvError))));
    assert_eq!(m.send(3), Err(SendError(3)));
}

#[test]
fn unbounded_close_then_drain_every_sub_queue() {
    let n = SUB_QUEUE_SIZE * 2 + 1;
    let mut u = SpscUnbounded::new();
    let mut m = MpmcUnbounded::new();
    for i in 0..n {
        u.send(i).unwrap();
        m.send(i).unwrap();
    }
    u.close();
    m.close();
    assert_eq!(u.send(9999), Err(SendError(9999)));
    assert_eq!(m.send(9999), Err(SendError(9999)));
    for i in 0..n {
        assert!(matches!(u.recv(), Step::Done(Ok(v)) if v == i));
        assert!(matches!(m.recv(), Step::Done(Ok(v)) if v == i));
    }
    assert!(matches!(u.recv(), Step::Done(Err(RecvError))));
    assert!(matches!(m.recv(), Step::Done(Err(RecvError))));
}

#[test]
fn older_mpmc_blocking_steps_chain() {
    let mut m = Mpmc::new(3);
    for v in [10, 20, 30] {
        assert!(m.check_send_ok());
        assert!(matches!(m.send(v), Step::Done(Ok(()))));
    }
    assert!(matches!(m.send(40), Step::Wait(40)));
    for v in [10, 20] {
        assert!(m.check_recv_ok());
        assert!(matches!(m.recv(), Step::Done(Ok(x)) if x == v));
    }
    assert!(m.close());
    assert!(matches!(m.recv(), Step::Done(Err(RecvError))));
    assert_eq!(m.try_recv(), Ok(30));
    assert_eq!(m.try_recv(), Err(TryRecvError));
}

#[test]
fn error_messages() {
    assert_eq!(TrySendError::Full(1).into_inner(), 1);
    assert_eq!(TrySendError::Disconnected(2).into_inner(), 2);
    assert!(TrySendError::Full(1).is_full());
    assert!(!TrySendError::Disconnected(1).is_full());
    assert_eq!(SendError(3).into_inner(), 3);
    assert_eq!(TrySendError::Full(1).describe(), "sending on a full channel");
    assert_eq!(TrySendError::Disconnected(1).describe(), "sending on a disconnected channel");
    assert_eq!(SendError(1).describe(), "sending on a disconnected channel");
    assert_eq!(RecvError.describe(), "receiving on an empty and disconnected channel");
    assert_eq!(TryRecvError.describe(), "try receiving on an empty and disconnected channel");
}

#[test]
fn slot_selection_reports_index_and_stamp() {
    let mut q: MpmcBounded<u8> = MpmcBounded::new(2);
    assert!(matches!(q.select_bucket_4_send(), (0, 0, State::Success)));
    assert!(matches!(q.select_bucket_4_recv(), (0, _, false)));
    assert!(q.try_send(1).is_ok());
    assert!(matches!(q.select_bucket_4_send(), (1, 0, State::Success)));
    assert!(matches!(q.select_bucket_4_recv(), (0, 1, true)));
    assert!(q.try_send(2).is_ok());
    // Full: the writer is back on slot 0, one lap on, and the slot still
    // carries the stamp of the unread message.
    assert!(matches!(q.select_bucket_4_send(), (0, 1, State::Failed)));
    q.close();
    assert!(matches!(q.select_bucket_4_send(), (0, 0, State::Closed)));

    let mut m: Mpmc<u8> = Mpmc::new(2);
    let mut sel = Selector::new();
    assert!(m.get_selector(Operation::Sending, &mut sel));
    assert_eq!((sel.idx, sel.lap), (0, 0));
    assert!(m.try_send(7).is_ok());
    assert!(m.get_selector(Operation::Receiving, &mut sel));
    assert_eq!((sel.idx, sel.lap), (0, 1));
    assert!(m.get_selector(Operation::Sending, &mut sel));
    assert_eq!(sel.idx, 1);

    let mut s: Spsc<u8> = Spsc::new(0);
    assert!(s.select_bucket(Operation::Sending, &mut sel));
    assert_eq!((sel.idx, sel.lap), (0, 0));
    assert!(s.try_send(3).is_ok());
    assert!(!s.select_bucket(Operation::Sending, &mut sel));
    assert_eq!(sel.idx, 0);
    assert!(s.select_bucket(Operation::Receiving, &mut sel));
    assert_eq!((sel.idx, sel.lap), (0, 1));
}

#[test]
fn empty_slot_stamps() {
    // An empty slot carries the stamp one lap behind the reader's.
    let q: MpmcBounded<u8> = MpmcBounded::new(2);
    assert!(matches!(q.select_bucket_4_recv(), (0, 0, false)));
    let mut s: Spsc<u8> = Spsc::new(1);
    let mut sel = Selector::new();
    assert!(!s.select_bucket(Operation::Receiving, &mut sel));
    assert_eq!((sel.idx, sel.lap), (0, 0));
    assert!(s.try_send(1).is_ok());
    assert!(!s.select_bucket(Operation::Sending, &mut sel));
    assert_eq!((sel.idx, sel.lap), (0, 1));
}

#[test]
fn interleaved_sends_and_receives_keep_order() {
    let mut q = MpmcUnbounded::new();
    let mut next_in: u32 = 0;
    let mut next_out: u32 = 0;
    for round in 0..3000u32 {
        for _ in 0..(round % 4) {
            q.send(next_in).unwrap();
            next_in += 1;
        }
        for _ in 0..(round % 3) {
            match q.recv() {
                Step::Done(Ok(v)) => {
                    assert_eq!(v, next_out);
                    next_out += 1;
                },
                Step::Wait(()) => assert_eq!(next_out, next_in),
                Step::Done(Err(_)) => unreachable!(),
            }
        }
    }
    assert!(next_in > 2 * SUB_QUEUE_SIZE);
}
