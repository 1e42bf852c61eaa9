use omango::backoff::Backoff;
use omango::error::WrapError;
use omango::queue::waker::Metadata;
use omango::single::flight::Group as Flight;
use omango::single::source::Group as Source;
use omango::single::source::outcome_result;
use omango::wg::WaitGroup;

#[test]
fn wait_group_releases_on_last_done() {
    let mut wg = WaitGroup::new(1);
    wg.add(1);
    assert!(wg.should_wait());
    assert!(!wg.done());
    assert!(wg.should_wait());
    assert!(wg.done());
    assert!(!wg.should_wait());

    let mut empty = WaitGroup::default();
    assert!(!empty.should_wait());
    empty.add(2);
    assert!(!empty.done());
    assert!(empty.done());
}

#[test]
fn wait_group_add_wraps() {
    let mut wg = WaitGroup::new(u32::MAX);
    wg.add(2);
    // The counter wraps around to 1.
    assert!(wg.done());
}

#[test]
fn source_results_by_name() {
    let mut g: Source<i32> = Source::new(3);
    assert!(g.should_wait());
    assert!(!g.add("source-1", Some(Ok(1))));
    assert!(!g.add("source-2", Some(Err(WrapError("bad".to_string())))));
    assert!(g.add("source-3", None));
    assert!(!g.should_wait());

    assert_eq!(g.get("source-1"), Ok(1));
    assert!(!g.check_get("source-1"));
    assert!(g.check_get("source-4"));
    assert_eq!(g.get("source-2"), Err(WrapError("bad".to_string())));
    assert_eq!(g.get("source-3"), Err(WrapError("function of user panic".to_string())));
    assert_eq!(g.get("source-4"), Err(WrapError("key doesn't exist".to_string())));
}

#[test]
fn source_first_of_duplicate_names_wins() {
    let mut g: Source<i32> = Source::new(2);
    g.add("dup", Some(Ok(1)));
    g.add("dup", Some(Ok(2)));
    assert_eq!(g.get("dup"), Ok(1));
}

#[test]
fn source_reset_is_ready_for_a_new_collection() {
    let mut g: Source<i32> = Source::new(1);
    g.add("a", Some(Ok(1)));
    g.reset(2);
    assert!(g.should_wait());
    assert_eq!(g.get("a"), Err(WrapError("key doesn't exist".to_string())));
    assert!(!g.add("b", Some(Ok(2))));
    assert!(g.add("c", Some(Ok(3))));
    assert_eq!(g.get("c"), Ok(3));
}

#[test]
fn flight_table() {
    let mut t: Flight<u32> = Flight::new();
    assert_eq!(t.get("google"), None);
    t.insert("google", 1);
    t.insert("rust", 2);
    assert_eq!(t.get("google"), Some(&1));
    t.insert("google", 3);
    assert_eq!(t.get("google"), Some(&3));
    assert!(t.forgot("google"));
    assert!(!t.forgot("google"));
    assert_eq!(t.get("google"), None);
    assert_eq!(t.get("rust"), Some(&2));
}

#[test]
fn waiters_register_notify_unregister() {
    let mut m = Metadata::new();
    assert!(m.is_empty());
    m.register(7);
    m.register(9);
    assert_eq!(m.notify(), vec![7]);
    assert_eq!(m.notify(), vec![7, 9]);
    // Every waiter is signalled: the count stays.
    assert_eq!(m.notify(), vec![7, 9]);
    m.unregister(7);
    assert_eq!(m.notify(), vec![9]);
    m.unregister(5);
    assert_eq!(m.close(), vec![9]);
    assert!(m.is_closed());
    m.unregister(9);
    assert!(m.is_empty());
}

#[test]
fn register_then_unregister_restores() {
    let mut m = Metadata::new();
    m.register(1);
    m.register(2);
    m.register(3);
    m.unregister(3);
    assert_eq!(m.close(), vec![1, 2]);

    let mut s = omango::spsc::waker::Metadata::new();
    assert_eq!(s.notify(), None);
    s.register(4);
    s.register(5);
    assert_eq!(s.notify(), Some(4));
    assert!(s.unregister(4));
    assert!(!s.unregister(4));
    assert_eq!(s.notify(), Some(5));
    assert_eq!(s.close(), vec![5]);
}

#[test]
fn backoff_steps() {
    let mut b = Backoff::new();
    for _ in 0..7 {
        assert!(!b.snooze());
    }
    assert!(b.snooze());
    b.reset();
    for _ in 0..7 {
        let s = b.snooze_completed();
        assert!(!s.yield_now);
        assert!(!s.completed);
    }
    for _ in 0..4 {
        let s = b.snooze_completed();
        assert!(s.yield_now);
        assert!(!s.completed);
    }
    let s = b.snooze_completed();
    assert!(s.yield_now);
    assert!(s.completed);
    let mut c = Backoff::default();
    for _ in 0..20 {
        c.spin();
    }
    assert!(c.snooze());
}

#[test]
fn flight_lead_or_join() {
    let mut t: Flight<u32> = Flight::new();
    assert!(t.lead("google", 1));
    assert!(!t.lead("google", 2));
    assert_eq!(t.get("google"), Some(&1));
    assert!(t.forgot("google"));
    assert!(t.lead("google", 3));
    assert_eq!(t.get("google"), Some(&3));
}

#[test]
fn panicked_function_gives_the_panic_error() {
    assert_eq!(outcome_result::<u8>(None), Err(WrapError("function of user panic".to_string())));
    assert_eq!(outcome_result(Some(Ok(4u8))), Ok(4));
    assert_eq!(outcome_result::<u8>(Some(Err(WrapError("bad".to_string())))), Err(WrapError("bad".to_string())));
}

#[test]
fn source_result_is_taken_once() {
    let mut g: Source<i32> = Source::new(1);
    assert!(g.check_get("only"));
    assert_eq!(g.get("only"), Err(WrapError("key doesn't exist".to_string())));
    assert!(g.add("only", Some(Ok(5))));
    assert!(g.check_get("only"));
    assert_eq!(g.get("only"), Ok(5));
    assert!(!g.check_get("only"));
}
