//! Delayed-dispatch queue: future task activations ordered by deadline.
//!
//! Entries are kept ascending by deadline and, among equal deadlines, by
//! enqueue order, so firing always takes the front. The queue has a fixed
//! capacity; a full queue reports the overflow to the caller. Each accepted
//! entry gets a handle under which a not-yet-fired entry can be cancelled;
//! a cancel that arrives after the fire finds nothing and is a no-op, so an
//! activation can never fire twice.

use vstd::prelude::*;

use crate::SpawnError;

verus! {

/// A future activation: fire `task` with `payload` once the clock has
/// reached `deadline`. `seq` is the entry's handle and records enqueue order.
#[derive(Clone, Copy, Debug, PartialEq, Eq, Structural)]
pub struct TimerEntry {
    pub deadline: u64,
    pub task: usize,
    pub payload: u64,
    pub seq: u64,
}

/// Queue order: ascending deadline, enqueue order among equal deadlines.
pub open spec fn entry_before(a: TimerEntry, b: TimerEntry) -> bool {
    a.deadline < b.deadline || (a.deadline == b.deadline && a.seq < b.seq)
}

/// The position at which an entry with deadline `deadline` enters the sorted
/// sequence `s`: after every entry with an equal or earlier deadline.
pub open spec fn insert_pos(s: Seq<TimerEntry>, deadline: u64) -> int
    decreases s.len(),
{
    if s.len() == 0 {
        0
    } else if s[0].deadline <= deadline {
        1 + insert_pos(s.drop_first(), deadline)
    } else {
        0
    }
}

/// Bounded queue of future activations, sorted by `entry_before`.
pub struct TimerQueue {
    entries: Vec<TimerEntry>,
    next_seq: u64,
    capacity: usize,
}

impl View for TimerQueue {
    type V = Seq<TimerEntry>;

    closed spec fn view(&self) -> Seq<TimerEntry> {
        self.entries@
    }
}

/// What a successful or refused insertion leaves behind: on success the new
/// entry sits at its deadline-ordered position and the handle is the entry's
/// sequence number; on overflow nothing changes.
pub open spec fn schedule_post(
    pre: TimerQueue,
    post: TimerQueue,
    deadline: u64,
    task: usize,
    payload: u64,
    r: Result<u64, SpawnError>,
) -> bool {
    &&& post.spec_capacity() == pre.spec_capacity()
    &&& if pre@.len() < pre.spec_capacity() {
        &&& r == Ok::<u64, SpawnError>(pre.spec_next_seq())
        &&& post.spec_next_seq() == pre.spec_next_seq() + 1
        &&& post@ == pre@.insert(
            insert_pos(pre@, deadline),
            (TimerEntry { deadline, task, payload, seq: pre.spec_next_seq() }),
        )
    } else {
        &&& r == Err::<u64, SpawnError>(SpawnError::QueueFull)
        &&& post@ == pre@
        &&& post.spec_next_seq() == pre.spec_next_seq()
    }
}

impl TimerQueue {
    /// Most entries the queue will hold at once.
    pub closed spec fn spec_capacity(self) -> int {
        self.capacity as int
    }

    /// The handle the next accepted entry will get.
    pub closed spec fn spec_next_seq(self) -> u64 {
        self.next_seq
    }

    /// Queue invariant: entries strictly ordered by (deadline, enqueue order),
    /// handles unique and below the enqueue counter, length within capacity.
    pub open spec fn wf(self) -> bool {
        &&& forall|i: int, j: int|
            0 <= i < j < self@.len() ==> entry_before(#[trigger] self@[i], #[trigger] self@[j])
        &&& forall|i: int| 0 <= i < self@.len() ==> (#[trigger] self@[i]).seq < self.spec_next_seq()
        &&& forall|i: int, j: int|
            0 <= i < j < self@.len() ==> (#[trigger] self@[i]).seq != (#[trigger] self@[j]).seq
        &&& self@.len() <= self.spec_capacity()
    }

    /// An empty queue with room for `capacity` entries.
    pub fn new(capacity: usize) -> (q: TimerQueue)
        ensures
            q.wf(),
            q@.len() == 0,
            q.spec_capacity() == capacity,
            q.spec_next_seq() == 0,
    {
        TimerQueue { entries: Vec::new(), next_seq: 0, capacity }
    }

    /// How many activations are waiting.
    pub fn len(&self) -> (n: usize)
        ensures
            n == self@.len(),
    {
        self.entries.len()
    }

    /// The nearest pending deadline, for arming the timer compare interrupt;
    /// `None` when nothing is scheduled.
    pub fn next_deadline(&self) -> (r: Option<u64>)
        ensures
            self@.len() > 0 ==> r == Some(self@[0].deadline),
            self@.len() == 0 ==> r is None,
    {
        if self.entries.len() > 0 {
            Some(self.entries[0].deadline)
        } else {
            None
        }
    }

    /// Inserts an activation for `deadline`, after every entry with an equal
    /// or earlier deadline, and returns its cancellation handle; reports
    /// overflow on a full queue, which the caller must handle.
    pub fn schedule(&mut self, deadline: u64, task: usize, payload: u64) -> (r: Result<
        u64,
        SpawnError,
    >)
        requires
            old(self).wf(),
            old(self).spec_next_seq() < u64::MAX,
        ensures
            final(self).wf(),
            schedule_post(*old(self), *final(self), deadline, task, payload, r),
    {
        if self.entries.len() == self.capacity {
            return Err(SpawnError::QueueFull);
        }
        let ghost s0 = self.entries@;
        let mut idx: usize = 0;
        while idx < self.entries.len() && self.entries[idx].deadline <= deadline
            invariant
                idx <= s0.len(),
                self.entries@ == s0,
                forall|i: int| 0 <= i < idx ==> (#[trigger] s0[i]).deadline <= deadline,
            decreases s0.len() - idx,
        {
            idx = idx + 1;
        }
        proof {
            lemma_insert_pos_props(s0, deadline);
            assert forall|i: int| idx <= i < s0.len() implies (#[trigger] s0[i]).deadline
                > deadline by {
                if i > idx {
                    assert(entry_before(s0[idx as int], s0[i]));
                }
            }
            let p = insert_pos(s0, deadline);
            if p < idx {
                assert(s0[p].deadline <= deadline);
            }
            if idx < p {
                assert(s0[idx as int].deadline <= deadline);
            }
            assert(idx == p);
        }
        let entry = TimerEntry { deadline, task, payload, seq: self.next_seq };
        let handle = self.next_seq;
        self.next_seq = self.next_seq + 1;
        self.entries.insert(idx, entry);
        proof {
            let s1 = self.entries@;
            assert forall|i: int, j: int| 0 <= i < j < s1.len() implies entry_before(
                #[trigger] s1[i],
                #[trigger] s1[j],
            ) by {
                if j < idx {
                } else if i < idx && j == idx {
                    assert(s1[i] == s0[i] && s1[j] == entry);
                } else if i < idx && j > idx {
                    assert(s1[i] == s0[i] && s1[j] == s0[j - 1]);
                } else if i == idx {
                    assert(s1[i] == entry && s1[j] == s0[j - 1]);
                } else {
                    assert(s1[i] == s0[i - 1] && s1[j] == s0[j - 1]);
                }
            }
            assert forall|i: int, j: int| 0 <= i < j < s1.len() implies (#[trigger] s1[i]).seq != (
            #[trigger] s1[j]).seq by {}
        }
        Ok(handle)
    }

    /// Inserts an activation to fire no earlier than `delay` ticks past the
    /// instant `now`.
    pub fn spawn_after(&mut self, now: u64, delay: u64, task: usize, payload: u64) -> (r: Result<
        u64,
        SpawnError,
    >)
        requires
            old(self).wf(),
            old(self).spec_next_seq() < u64::MAX,
            now + delay <= u64::MAX,
        ensures
            final(self).wf(),
            schedule_post(*old(self), *final(self), (now + delay) as u64, task, payload, r),
    {
        self.schedule(now + delay, task, payload)
    }

    /// Takes the front activation when its deadline has been reached. An
    /// activation only ever fires at an instant at or past its deadline,
    /// never early.
    pub fn pop_due(&mut self, now: u64) -> (r: Option<TimerEntry>)
        requires
            old(self).wf(),
        ensures
            final(self).wf(),
            final(self).spec_capacity() == old(self).spec_capacity(),
            final(self).spec_next_seq() == old(self).spec_next_seq(),
            if old(self)@.len() > 0 && old(self)@[0].deadline <= now {
                &&& r == Some(old(self)@[0])
                &&& final(self)@ == old(self)@.drop_first()
            } else {
                &&& r is None
                &&& final(self)@ == old(self)@
            },
            r matches Some(e) ==> e.deadline <= now,
    {
        if self.entries.len() > 0 && self.entries[0].deadline <= now {
            let e = self.entries.remove(0);
            proof {
                assert(self.entries@ =~= old(self)@.drop_first());
            }
            Some(e)
        } else {
            None
        }
    }

    /// Removes the not-yet-fired activation with the given handle. Returns
    /// whether anything was removed: a cancel that races its fire and loses
    /// finds the entry gone and changes nothing.
    pub fn cancel(&mut self, handle: u64) -> (r: bool)
        requires
            old(self).wf(),
        ensures
            final(self).wf(),
            final(self).spec_capacity() == old(self).spec_capacity(),
            final(self).spec_next_seq() == old(self).spec_next_seq(),
            r == exists|i: int|
                0 <= i < old(self)@.len() && (#[trigger] old(self)@[i]).seq == handle,
            r ==> exists|i: int|
                {
                    &&& 0 <= i < old(self)@.len()
                    &&& (#[trigger] old(self)@[i]).seq == handle
                    &&& final(self)@ == old(self)@.remove(i)
                },
            !r ==> final(self)@ == old(self)@,
    {
        let mut idx: usize = 0;
        while idx < self.entries.len()
            invariant
                idx <= self@.len(),
                self@ == old(self)@,
                self.spec_capacity() == old(self).spec_capacity(),
                self.spec_next_seq() == old(self).spec_next_seq(),
                old(self).wf(),
                forall|i: int| 0 <= i < idx ==> (#[trigger] old(self)@[i]).seq != handle,
            decreases self@.len() - idx,
        {
            if self.entries[idx].seq == handle {
                let ghost s0 = self.entries@;
                self.entries.remove(idx);
                proof {
                    let s1 = self.entries@;
                    assert(s1 == s0.remove(idx as int));
                    assert forall|i: int, j: int| 0 <= i < j < s1.len() implies entry_before(
                        #[trigger] s1[i],
                        #[trigger] s1[j],
                    ) && s1[i].seq != s1[j].seq by {
                        if j < idx {
                        } else if i < idx {
                            assert(s1[i] == s0[i] && s1[j] == s0[j + 1]);
                        } else {
                            assert(s1[i] == s0[i + 1] && s1[j] == s0[j + 1]);
                        }
                    }
                    assert forall|i: int| 0 <= i < s1.len() implies (#[trigger] s1[i]).seq
                        < self.spec_next_seq() by {
                        if i < idx {
                            assert(s1[i] == s0[i]);
                        } else {
                            assert(s1[i] == s0[i + 1]);
                        }
                    }
                    assert(old(self)@[idx as int].seq == handle);
                }
                return true;
            }
            idx = idx + 1;
        }
        false
    }
}

/// `insert_pos` splits a sorted sequence exactly at the requested deadline:
/// everything before it is due no later, everything at or after it strictly
/// later.
pub proof fn lemma_insert_pos_props(s: Seq<TimerEntry>, deadline: u64)
    requires
        forall|i: int, j: int|
            0 <= i < j < s.len() ==> entry_before(#[trigger] s[i], #[trigger] s[j]),
    ensures
        0 <= insert_pos(s, deadline) <= s.len(),
        forall|i: int|
            0 <= i < insert_pos(s, deadline) ==> (#[trigger] s[i]).deadline <= deadline,
        forall|i: int|
            insert_pos(s, deadline) <= i < s.len() ==> (#[trigger] s[i]).deadline > deadline,
    decreases s.len(),
{
    if s.len() == 0 {
    } else {
        let rest = s.drop_first();
        assert forall|i: int, j: int| 0 <= i < j < rest.len() implies entry_before(
            #[trigger] rest[i],
            #[trigger] rest[j],
        ) by {
            assert(rest[i] == s[i + 1] && rest[j] == s[j + 1]);
        }
        lemma_insert_pos_props(rest, deadline);
        if s[0].deadline <= deadline {
            let p = insert_pos(s, deadline);
            assert(p == 1 + insert_pos(rest, deadline));
            assert forall|i: int| 0 <= i < p implies (#[trigger] s[i]).deadline <= deadline by {
                if i > 0 {
                    assert(rest[i - 1] == s[i]);
                }
            }
            assert forall|i: int| p <= i < s.len() implies (#[trigger] s[i]).deadline
                > deadline by {
                assert(rest[i - 1] == s[i]);
            }
        } else {
            assert forall|i: int| 0 <= i < s.len() implies (#[trigger] s[i]).deadline
                > deadline by {
                if i > 0 {
                    assert(entry_before(s[0], s[i]));
                }
            }
        }
    }
}

/// Equal-deadline entries keep enqueue order: of two queued activations due
/// at the same instant, the earlier-enqueued one sits nearer the front and
/// therefore fires first.
pub proof fn lemma_equal_deadline_fifo(q: &TimerQueue, i: int, j: int)
    requires
        q.wf(),
        0 <= i < j < q@.len(),
        q@[i].deadline == q@[j].deadline,
    ensures
        q@[i].seq < q@[j].seq,
{
    assert(entry_before(q@[i], q@[j]));
}

} // verus!
