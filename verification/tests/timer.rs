use pinetimers::clock::MonotonicClock;
use pinetimers::timer_queue::TimerQueue;
use pinetimers::SpawnError;

/// `spawn_after(task, d)` then advancing the clock past `d` dispatches the
/// task, and its fire instant is never before the requested deadline.
#[test]
fn delayed_spawn_fires_no_earlier_than_deadline() {
    let mut clock = MonotonicClock::new(0);
    let mut q = TimerQueue::new(8);
    let handle = q.spawn_after(clock.now(), 100, 3, 9).unwrap();
    assert_eq!(handle, 0);
    // Not due yet: nothing fires before the deadline.
    let now = clock.advance(50);
    assert!(q.pop_due(now).is_none());
    // Advance past the deadline: the entry fires, at an instant >= deadline.
    let now = clock.advance(130);
    let fired = q.pop_due(now).unwrap();
    assert!(fired.deadline >= 100);
    assert!(now >= fired.deadline);
    assert_eq!(fired.task, 3);
    assert_eq!(fired.payload, 9);
    assert!(q.pop_due(now).is_none());
}

/// Entries are consumed in ascending deadline order regardless of the order
/// they were scheduled in.
#[test]
fn earlier_deadline_fires_first() {
    let mut q = TimerQueue::new(8);
    q.schedule(10, 0, 0).unwrap();
    q.schedule(5, 1, 0).unwrap();
    assert_eq!(q.next_deadline(), Some(5));
    assert_eq!(q.pop_due(20).unwrap().task, 1);
    assert_eq!(q.pop_due(20).unwrap().task, 0);
}

/// Equal-deadline entries fire in enqueue order.
#[test]
fn equal_deadline_entries_fire_in_enqueue_order() {
    let mut q = TimerQueue::new(8);
    q.schedule(5, 7, 0).unwrap();
    q.schedule(5, 8, 0).unwrap();
    q.schedule(5, 9, 0).unwrap();
    assert_eq!(q.pop_due(5).unwrap().task, 7);
    assert_eq!(q.pop_due(5).unwrap().task, 8);
    assert_eq!(q.pop_due(5).unwrap().task, 9);
}

/// Cancelling a not-yet-fired entry removes it; a cancel that arrives after
/// the entry fired is a no-op, so nothing ever fires twice.
#[test]
fn cancel_before_fire_removes_after_fire_noop() {
    let mut q = TimerQueue::new(8);
    let h1 = q.schedule(10, 0, 0).unwrap();
    let h2 = q.schedule(20, 1, 0).unwrap();
    assert!(q.cancel(h1));
    assert!(!q.cancel(h1));
    assert!(q.pop_due(15).is_none());
    // h2 fires, then its cancel resolves as a no-op.
    assert_eq!(q.pop_due(25).unwrap().task, 1);
    assert!(!q.cancel(h2));
    assert_eq!(q.len(), 0);
}

/// A full delayed queue reports the overflow to the caller.
#[test]
fn full_delayed_queue_reports_overflow() {
    let mut q = TimerQueue::new(1);
    assert!(q.schedule(10, 0, 0).is_ok());
    assert_eq!(q.schedule(11, 0, 0), Err(SpawnError::QueueFull));
    assert_eq!(q.len(), 1);
}

/// The extended instant keeps rising across a wrap of the raw hardware
/// counter.
#[test]
fn clock_is_monotone_across_raw_wrap() {
    let mut clock = MonotonicClock::new(0xffff_fff0);
    assert_eq!(clock.now(), 0);
    let t1 = clock.advance(0x10);
    assert_eq!(t1, 0x20);
    let t2 = clock.advance(0x10);
    assert_eq!(t2, 0x20);
    let t3 = clock.advance(0x30);
    assert_eq!(t3, 0x40);
    assert!(clock.now() >= t1);
}
