use async_executor::sleepers::Sleepers;
use async_executor::state::State;
use async_executor::ticker::{Polled, Step, Ticker};

#[test]
fn identifiers_are_handed_out_again() {
    let mut sleepers: Sleepers<u32> = Sleepers::new();
    assert_eq!(sleepers.insert(&10), 1);
    assert_eq!(sleepers.insert(&20), 2);
    assert_eq!(sleepers.insert(&30), 3);
    assert!(!sleepers.remove(2));
    assert!(!sleepers.remove(1));
    assert_eq!(sleepers.count(), 1);
    // The one that was given back last comes first.
    assert_eq!(sleepers.insert(&40), 1);
    assert_eq!(sleepers.insert(&50), 2);
    assert_eq!(sleepers.insert(&60), 4);
    assert_eq!(sleepers.count(), 4);
}

#[test]
fn the_sleeper_at_the_head_is_notified() {
    let mut sleepers: Sleepers<u32> = Sleepers::new();
    assert!(sleepers.is_notified());
    assert_eq!(sleepers.notify(), None);
    sleepers.insert(&10);
    sleepers.insert(&20);
    assert!(!sleepers.is_notified());
    assert_eq!(sleepers.notify(), Some(10));
    assert!(sleepers.is_notified());
    // Only one is notified at a time.
    assert_eq!(sleepers.notify(), None);
    assert_eq!(sleepers.count(), 2);
}

#[test]
fn removing_tells_whether_the_ticker_was_notified() {
    let mut sleepers: Sleepers<u32> = Sleepers::new();
    let a = sleepers.insert(&10);
    let b = sleepers.insert(&20);
    assert_eq!(sleepers.notify(), Some(10));
    assert!(sleepers.remove(a));
    assert!(!sleepers.is_notified());
    assert!(!sleepers.remove(b));
    assert!(sleepers.is_notified());
    assert_eq!(sleepers.count(), 0);
}

#[test]
fn updating_lists_a_notified_ticker_again() {
    let mut sleepers: Sleepers<u32> = Sleepers::new();
    let a = sleepers.insert(&10);
    let b = sleepers.insert(&20);
    // A new waker takes the place of the old one.
    assert!(!sleepers.update(a, &11));
    assert_eq!(sleepers.notify(), Some(11));
    // It is listed behind the others then.
    assert!(sleepers.update(a, &12));
    assert!(!sleepers.update(b, &21));
    assert_eq!(sleepers.notify(), Some(21));
}

#[test]
fn a_ticker_sleeps_and_wakes() {
    let mut state: State<u32> = State::new();
    let mut ticker = Ticker::new();
    assert!(ticker.sleep(&mut state, &5));
    assert_eq!(state.sleeping(), 1);
    // Already sleeping and unnotified.
    assert!(!ticker.sleep(&mut state, &6));
    assert_eq!(state.notify(), Some(6));
    // Sleeping, but notified.
    assert!(ticker.sleep(&mut state, &7));
    assert_eq!(state.sleeping(), 1);
    ticker.wake(&mut state);
    assert_eq!(state.sleeping(), 0);
    assert_eq!(state.notify(), None);
    ticker.wake(&mut state);
    assert_eq!(state.sleeping(), 0);
}

#[test]
fn a_search_without_a_task_is_made_twice() {
    let mut state: State<u32> = State::new();
    let mut ticker = Ticker::new();
    assert!(matches!(ticker.runnable_with(&mut state, None, &1), Step::Again));
    assert!(matches!(ticker.runnable_with(&mut state, None, &1), Step::Pending));
    // Notified in between, it searches again.
    assert_eq!(state.notify(), Some(1));
    assert!(matches!(ticker.runnable_with(&mut state, None, &1), Step::Again));
    match ticker.runnable_with(&mut state, Some(3), &1) {
        Step::Ready(tick) => assert_eq!(tick.task, 3),
        _ => panic!("there is a task"),
    }
    assert_eq!(state.sleeping(), 0);
}

#[test]
fn finding_a_task_passes_the_notification_on() {
    let mut state: State<u32> = State::new();
    let mut a = Ticker::new();
    let mut b = Ticker::new();
    assert!(matches!(a.runnable(&mut state, &1), Polled::Pending));
    assert!(matches!(b.runnable(&mut state, &2), Polled::Pending));
    assert_eq!(state.schedule(7), Some(1));
    assert_eq!(state.schedule(8), None);
    match a.runnable(&mut state, &1) {
        Polled::Ready(tick) => {
            assert_eq!(tick.task, 7);
            assert_eq!(tick.wake, Some(2));
        }
        Polled::Pending => panic!("there is a task"),
    }
    match b.runnable(&mut state, &2) {
        Polled::Ready(tick) => {
            assert_eq!(tick.task, 8);
            assert_eq!(tick.wake, None);
        }
        Polled::Pending => panic!("there is a task"),
    }
}

#[test]
fn try_tick_notifies_another_ticker() {
    let mut state: State<u32> = State::new();
    let mut a = Ticker::new();
    assert_eq!(state.schedule(1), None);
    assert_eq!(state.schedule(2), None);
    assert!(a.sleep(&mut state, &9));
    let tick = state.try_tick().unwrap();
    assert_eq!(tick.task, 1);
    assert_eq!(tick.wake, Some(9));
}

#[test]
fn a_dropped_ticker_passes_its_notification_on() {
    let mut state: State<u32> = State::new();
    let mut a = Ticker::new();
    let mut b = Ticker::new();
    assert!(a.sleep(&mut state, &1));
    assert!(b.sleep(&mut state, &2));
    assert_eq!(state.schedule(7), Some(1));
    // The task would wait for nobody if the notification went away with the ticker.
    assert_eq!(a.drop(&mut state), Some(2));
    assert_eq!(state.sleeping(), 1);
    assert_eq!(b.drop(&mut state), None);
    assert_eq!(state.sleeping(), 0);
}

#[test]
fn a_dropped_ticker_without_a_notification_wakes_nobody() {
    let mut state: State<u32> = State::new();
    let mut a = Ticker::new();
    let mut b = Ticker::new();
    assert!(a.sleep(&mut state, &1));
    assert!(b.sleep(&mut state, &2));
    assert_eq!(b.drop(&mut state), None);
    assert_eq!(state.schedule(7), Some(1));
    assert_eq!(Ticker::new().drop(&mut state), None);
}

#[test]
fn sleeping_and_waking_leaves_the_others() {
    let mut state: State<u32> = State::new();
    let mut a = Ticker::new();
    let mut b = Ticker::new();
    assert!(a.sleep(&mut state, &1));
    assert!(b.sleep(&mut state, &2));
    b.wake(&mut state);
    assert!(!a.sleep(&mut state, &1));
    assert_eq!(state.sleeping(), 1);
    assert_eq!(state.notify(), Some(1));
}

#[test]
fn removing_undoes_inserting() {
    let mut sleepers: Sleepers<u32> = Sleepers::new();
    sleepers.insert(&10);
    let id = sleepers.insert(&20);
    assert!(!sleepers.remove(id));
    assert_eq!(sleepers.count(), 1);
    assert!(!sleepers.is_notified());
    assert_eq!(sleepers.insert(&30), id);
    // The ticker before it is notified first.
    assert_eq!(sleepers.notify(), Some(10));
    assert!(!sleepers.remove(id));
    assert!(sleepers.remove(1));
}

#[test]
fn identifiers_stay_below_the_most_that_slept_at_once() {
    let mut sleepers: Sleepers<u32> = Sleepers::new();
    for round in 0..10 {
        let a = sleepers.insert(&round);
        let b = sleepers.insert(&round);
        let c = sleepers.insert(&round);
        let mut ids = vec![a, b, c];
        ids.sort();
        assert_eq!(ids, vec![1, 2, 3]);
        assert!(!sleepers.remove(b));
        assert_eq!(sleepers.insert(&round), b);
        for id in ids {
            assert!(!sleepers.remove(id));
        }
        assert_eq!(sleepers.count(), 0);
    }
}

#[test]
fn a_task_that_comes_while_falling_asleep_is_not_lost() {
    let mut state: State<u32> = State::new();
    let mut ticker = Ticker::new();
    // The ticker searched and found nothing, and someone schedules a task before it sleeps.
    assert_eq!(state.schedule(4), None);
    // So it searches again before it waits.
    assert!(matches!(ticker.runnable_with(&mut state, None, &1), Step::Again));
    match ticker.runnable(&mut state, &1) {
        Polled::Ready(tick) => assert_eq!(tick.task, 4),
        Polled::Pending => panic!("there is a task"),
    }

    // A task that is scheduled after it fell asleep wakes it, though it is still searching.
    assert!(matches!(ticker.runnable_with(&mut state, None, &1), Step::Again));
    assert_eq!(state.schedule(5), Some(1));
    assert!(matches!(ticker.runnable_with(&mut state, None, &1), Step::Again));
    match ticker.runnable(&mut state, &1) {
        Polled::Ready(tick) => assert_eq!(tick.task, 5),
        Polled::Pending => panic!("there is a task"),
    }
}
