use pinetimers::dispatch::{Config, PendingEntry, TaskDesc};
use pinetimers::SpawnError;

fn task(priority: u8, access: Vec<bool>) -> TaskDesc {
    TaskDesc { priority, access }
}

/// A resource's computed ceiling is the maximum priority among the tasks in
/// its access set, and zero for a resource nobody declared.
#[test]
fn ceiling_is_max_of_access_set() {
    let cfg = Config {
        tasks: vec![
            task(1, vec![true, false, true]),
            task(2, vec![true, false, false]),
            task(3, vec![false, false, true]),
        ],
        n_resources: 3,
        capacity: 8,
    };
    let d = cfg.build();
    assert_eq!(d.ceilings, vec![2, 0, 3]);
}

/// Equal-priority spawns dispatch in spawn order, distinguished by payload.
#[test]
fn equal_priority_dispatch_is_fifo() {
    let cfg = Config {
        tasks: vec![task(1, vec![]), task(1, vec![]), task(1, vec![])],
        n_resources: 0,
        capacity: 8,
    };
    let mut d = cfg.build();
    assert!(d.spawn(2, 20).is_ok());
    assert!(d.spawn(0, 21).is_ok());
    assert!(d.spawn(1, 22).is_ok());
    let mut order = Vec::new();
    while let Some(e) = d.try_dispatch() {
        order.push(e);
        let done = d.complete();
        assert_eq!(done, e.task);
    }
    assert_eq!(
        order,
        vec![
            PendingEntry { task: 2, payload: 20 },
            PendingEntry { task: 0, payload: 21 },
            PendingEntry { task: 1, payload: 22 },
        ]
    );
}

/// Draining an equal-priority backlog from idle returns it unreordered.
#[test]
fn draining_backlog_keeps_spawn_order() {
    let cfg = Config {
        tasks: vec![task(2, vec![]), task(2, vec![])],
        n_resources: 0,
        capacity: 8,
    };
    let mut d = cfg.build();
    assert!(d.spawn(1, 0).is_ok());
    assert!(d.spawn(0, 1).is_ok());
    assert!(d.spawn(1, 2).is_ok());
    assert!(d.spawn(0, 3).is_ok());
    let order = d.run_pending_fifo();
    let tasks: Vec<usize> = order.iter().map(|e| e.task).collect();
    let payloads: Vec<u64> = order.iter().map(|e| e.payload).collect();
    assert_eq!(tasks, vec![1, 0, 1, 0]);
    assert_eq!(payloads, vec![0, 1, 2, 3]);
    assert_eq!(d.running_task(), None);
}

/// Once the low-priority task holds the shared resource's lock, the
/// high-priority sharer cannot begin running until the lock is released,
/// even though its trigger fired during the critical section.
#[test]
fn lock_holder_blocks_sharing_task() {
    let t_low = 0;
    let t_high = 1;
    let r = 0;
    let cfg = Config {
        tasks: vec![task(1, vec![true]), task(2, vec![true])],
        n_resources: 1,
        capacity: 4,
    };
    let mut d = cfg.build();
    assert!(d.spawn(t_low, 0).is_ok());
    let started = d.try_dispatch().unwrap();
    assert_eq!(started.task, t_low);
    d.lock(r);
    // T_high's trigger fires inside T_low's critical section.
    assert!(d.spawn(t_high, 0).is_ok());
    assert!(d.try_dispatch().is_none());
    d.unlock();
    let preempting = d.try_dispatch().unwrap();
    assert_eq!(preempting.task, t_high);
    assert_eq!(d.complete(), t_high);
    assert_eq!(d.running_task(), Some(t_low));
    assert_eq!(d.complete(), t_low);
    assert_eq!(d.running_task(), None);
}

/// A radio event firing mid-tick, where tick holds no resource shared with
/// the radio task, preempts tick and completes before tick resumes.
#[test]
fn radio_preempts_tick_and_completes_first() {
    let tick = 0; // periodic tick, every 125 ms, priority 1
    let radio = 2; // radio event, priority 3; task 1 is the touch edge at 2
    let r_rtc = 0;
    let r_devicestate = 1;
    // Resources: rtc, devicestate, touchpanel, bluetooth.
    let cfg = Config {
        tasks: vec![
            task(1, vec![true, true, false, false]),
            task(2, vec![false, true, true, false]),
            task(3, vec![false, false, false, true]),
        ],
        n_resources: 4,
        capacity: 8,
    };
    let mut d = cfg.build();
    assert_eq!(d.ceilings, vec![1, 2, 2, 3]);

    assert!(d.spawn(tick, 0).is_ok());
    assert_eq!(d.try_dispatch().unwrap().task, tick);
    d.lock(r_rtc);
    d.lock(r_devicestate);
    // Radio event fires mid-tick; tick holds nothing the radio task shares.
    assert!(d.spawn(radio, 7).is_ok());
    let preempting = d.try_dispatch().unwrap();
    assert_eq!(preempting.task, radio);
    assert_eq!(d.running_task(), Some(radio));
    assert_eq!(d.complete(), radio);
    // Tick resumes only after the radio activation completed.
    assert_eq!(d.running_task(), Some(tick));
    d.unlock();
    d.unlock();
    assert_eq!(d.complete(), tick);
}

/// A pending-queue capacity of 4 receiving 5 rapid spawns accepts the first
/// 4 in order and returns a capacity error on the 5th.
#[test]
fn fifth_spawn_overflows_capacity_of_four() {
    let cfg = Config {
        tasks: vec![task(1, vec![])],
        n_resources: 0,
        capacity: 4,
    };
    let mut d = cfg.build();
    assert_eq!(d.spawn(0, 1), Ok(()));
    assert_eq!(d.spawn(0, 2), Ok(()));
    assert_eq!(d.spawn(0, 3), Ok(()));
    assert_eq!(d.spawn(0, 4), Ok(()));
    assert_eq!(d.spawn(0, 5), Err(SpawnError::QueueFull));
    let mut payloads = Vec::new();
    while let Some(e) = d.try_dispatch() {
        payloads.push(e.payload);
        d.complete();
    }
    assert_eq!(payloads, vec![1, 2, 3, 4]);
}

/// A task whose priority tops every held ceiling preempts the running task;
/// one at or below a held ceiling does not, bounding priority inversion to
/// the one critical section.
#[test]
fn medium_priority_waits_while_noncontender_preempts() {
    let low = 0;
    let medium = 1;
    let high = 2;
    let r_shared = 0; // shared by low and medium: ceiling 2
    let cfg = Config {
        tasks: vec![task(1, vec![true]), task(2, vec![true]), task(3, vec![false])],
        n_resources: 1,
        capacity: 8,
    };
    let mut d = cfg.build();
    assert!(d.spawn(low, 0).is_ok());
    assert_eq!(d.try_dispatch().unwrap().task, low);
    d.lock(r_shared);
    assert!(d.spawn(medium, 0).is_ok());
    assert!(d.spawn(high, 0).is_ok());
    // Medium shares the resource, so it waits; high does not and runs now.
    let first = d.try_dispatch().unwrap();
    assert_eq!(first.task, high);
    assert_eq!(d.complete(), high);
    assert!(d.try_dispatch().is_none());
    d.unlock();
    assert_eq!(d.try_dispatch().unwrap().task, medium);
}
