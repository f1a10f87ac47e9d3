//! Task dispatcher with stack-based priority-ceiling locking.
//!
//! A fixed set of tasks is wired at build time, each with a priority and a
//! declared set of shared resources it may lock. A two-phase builder turns
//! that plain wiring record into the dispatcher's table, computing for every
//! resource its ceiling: the highest priority among the tasks in its access
//! set. At run time the dispatcher keeps a bounded FIFO of pending
//! activations, a stack of preempted-and-running activations, and a stack of
//! held locks. An activation is dispatched only when its priority exceeds the
//! current system ceiling — the running task's priority joined with the
//! ceilings of all held locks — so a task that shares a resource with the
//! lock holder is structurally kept from starting until the lock is released,
//! while a strictly higher-priority non-contender preempts freely.

use vstd::prelude::*;

use crate::SpawnError;

verus! {

/// Build-time description of one task: its fixed priority and, for each
/// resource id, whether the task may lock that resource.
#[derive(Debug)]
pub struct TaskDesc {
    pub priority: u8,
    pub access: Vec<bool>,
}

/// A queued activation: the task to run and the payload handed to it.
#[derive(Clone, Copy, Debug, PartialEq, Eq, Structural)]
pub struct PendingEntry {
    pub task: usize,
    pub payload: u64,
}

/// One level of the preemption stack: a dispatched activation and how many
/// locks were already held when it started (its own locks sit above that).
#[derive(Clone, Copy, Debug, PartialEq, Eq, Structural)]
pub struct Frame {
    pub task: usize,
    pub locks_below: usize,
}

/// Task `t` is in resource `r`'s access set.
pub open spec fn in_access_set(tasks: Seq<TaskDesc>, r: int, t: int) -> bool {
    0 <= t < tasks.len() && tasks[t].access@[r]
}

/// `c` is the ceiling of resource `r`: the maximum priority among the tasks
/// in `r`'s access set, and zero when that set is empty.
pub open spec fn ceiling_is_max(tasks: Seq<TaskDesc>, r: int, c: int) -> bool {
    &&& forall|t: int|
        #[trigger] in_access_set(tasks, r, t) ==> tasks[t].priority as int <= c
    &&& c != 0 ==> exists|t: int|
        #[trigger] in_access_set(tasks, r, t) && tasks[t].priority as int == c
    &&& c == 0 ==> forall|t: int| !(#[trigger] in_access_set(tasks, r, t))
}

/// The largest ceiling among the first `j` held locks, zero when none.
pub open spec fn max_held_ceiling(locks: Seq<usize>, ceilings: Seq<u8>, j: int) -> int
    decreases j,
{
    if j <= 0 {
        0
    } else {
        let c = ceilings[locks[j - 1] as int] as int;
        let rest = max_held_ceiling(locks, ceilings, j - 1);
        if c > rest {
            c
        } else {
            rest
        }
    }
}

/// Every held lock's ceiling is at most the running maximum.
pub proof fn lemma_max_held_ceiling_ge(locks: Seq<usize>, ceilings: Seq<u8>, j: int, k: int)
    requires
        0 <= k < j <= locks.len(),
    ensures
        ceilings[locks[k] as int] as int <= max_held_ceiling(locks, ceilings, j),
    decreases j,
{
    if k < j - 1 {
        lemma_max_held_ceiling_ge(locks, ceilings, j - 1, k);
    }
}

/// The running maximum over the first `j` locks only reads those locks.
pub proof fn lemma_max_held_ceiling_agrees(
    l1: Seq<usize>,
    l2: Seq<usize>,
    ceilings: Seq<u8>,
    j: int,
)
    requires
        0 <= j,
        forall|k: int| 0 <= k < j ==> l1[k] == l2[k],
    ensures
        max_held_ceiling(l1, ceilings, j) == max_held_ceiling(l2, ceilings, j),
    decreases j,
{
    if j > 0 {
        lemma_max_held_ceiling_agrees(l1, l2, ceilings, j - 1);
    }
}

/// The index of the first occurrence of the maximum of `prios`.
pub open spec fn first_max_index(prios: Seq<int>) -> int
    decreases prios.len(),
{
    if prios.len() <= 1 {
        0
    } else {
        let i = first_max_index(prios.drop_last());
        if prios.last() > prios[i] {
            prios.len() - 1
        } else {
            i
        }
    }
}

/// `first_max_index` points at a maximal element and everything before it is
/// strictly smaller.
pub proof fn lemma_first_max_index_props(prios: Seq<int>)
    requires
        prios.len() > 0,
    ensures
        0 <= first_max_index(prios) < prios.len(),
        forall|j: int| 0 <= j < prios.len() ==> #[trigger] prios[j] <= prios[first_max_index(prios)],
        forall|j: int|
            0 <= j < first_max_index(prios) ==> #[trigger] prios[j] < prios[first_max_index(prios)],
    decreases prios.len(),
{
    if prios.len() > 1 {
        let d = prios.drop_last();
        lemma_first_max_index_props(d);
        let i = first_max_index(d);
        assert forall|j: int| 0 <= j < d.len() implies #[trigger] prios[j] == d[j] by {}
        let m = first_max_index(prios);
        if prios.last() > prios[i] {
            assert(m == prios.len() - 1);
            assert forall|j: int| 0 <= j < m implies #[trigger] prios[j] < prios[m] by {
                assert(d[j] <= d[i]);
            }
        } else {
            assert(m == i);
            assert forall|j: int| 0 <= j < prios.len() implies #[trigger] prios[j] <= prios[m] by {
                if j < prios.len() - 1 {
                    assert(d[j] <= d[i]);
                }
            }
        }
    }
}

/// Two dispatcher states share their build-time wiring: same task table, same
/// ceilings, same pending-queue capacity.
pub open spec fn same_wiring(a: Dispatcher, b: Dispatcher) -> bool {
    &&& b.tasks@ == a.tasks@
    &&& b.ceilings@ == a.ceilings@
    &&& b.capacity == a.capacity
}

/// The scheduling core. Built once from a `Config`; afterwards only the
/// pending queue, the preemption stack, and the lock stack change.
pub struct Dispatcher {
    pub tasks: Vec<TaskDesc>,
    pub ceilings: Vec<u8>,
    pub capacity: usize,
    pub pending: Vec<PendingEntry>,
    pub frames: Vec<Frame>,
    pub locks: Vec<usize>,
}

impl Dispatcher {
    pub open spec fn n_resources(self) -> int {
        self.ceilings@.len() as int
    }

    pub open spec fn n_tasks(self) -> int {
        self.tasks@.len() as int
    }

    /// The fixed priority of task `t`.
    pub open spec fn task_prio(self, t: int) -> int {
        self.tasks@[t].priority as int
    }

    /// Dispatcher invariant: the wiring is well formed with correct ceilings,
    /// queued and running activations name real tasks, the preemption stack
    /// rises strictly in priority, each frame's lock watermark is ordered and
    /// within the lock stack, and no resource is locked twice.
    pub open spec fn wf(self) -> bool {
        &&& forall|t: int|
            0 <= t < self.n_tasks() ==> ((#[trigger] self.tasks@[t]).access@.len()
                == self.n_resources() && 1 <= self.tasks@[t].priority)
        &&& forall|r: int|
            0 <= r < self.n_resources() ==> ceiling_is_max(
                self.tasks@,
                r,
                (#[trigger] self.ceilings@[r]) as int,
            )
        &&& self.pending@.len() <= self.capacity
        &&& forall|i: int|
            0 <= i < self.pending@.len() ==> (#[trigger] self.pending@[i]).task < self.n_tasks()
        &&& forall|i: int|
            0 <= i < self.frames@.len() ==> ((#[trigger] self.frames@[i]).task < self.n_tasks()
                && self.frames@[i].locks_below <= self.locks@.len())
        &&& forall|i: int, j: int|
            0 <= i < j < self.frames@.len() ==> (#[trigger] self.frames@[i]).locks_below <= (
            #[trigger] self.frames@[j]).locks_below
        &&& forall|i: int, j: int|
            0 <= i < j < self.frames@.len() ==> self.task_prio((#[trigger] self.frames@[i]).task as int)
                < self.task_prio((#[trigger] self.frames@[j]).task as int)
        &&& self.frames@.len() > 0 ==> self.frames@[0].locks_below == 0
        &&& forall|j: int| 0 <= j < self.locks@.len() ==> (#[trigger] self.locks@[j]) < self.n_resources()
        &&& forall|j1: int, j2: int|
            0 <= j1 < j2 < self.locks@.len() ==> (#[trigger] self.locks@[j1]) != (
            #[trigger] self.locks@[j2])
        &&& self.frames@.len() == 0 ==> self.locks@.len() == 0
    }

    /// The priority of the innermost running activation, zero when idle.
    pub open spec fn base_prio(self) -> int {
        if self.frames@.len() == 0 {
            0
        } else {
            self.task_prio(self.frames@.last().task as int)
        }
    }

    /// The system ceiling: the running priority joined with the ceilings of
    /// all held locks. Only an activation strictly above it may start.
    pub open spec fn sys_ceiling(self) -> int {
        let held = max_held_ceiling(self.locks@, self.ceilings@, self.locks@.len() as int);
        if self.base_prio() > held {
            self.base_prio()
        } else {
            held
        }
    }

    /// A pending activation of task `t` may begin running now.
    pub open spec fn can_preempt(self, t: int) -> bool {
        self.task_prio(t) > self.sys_ceiling()
    }

    /// Resource `r` is currently locked.
    pub open spec fn holds_lock(self, r: usize) -> bool {
        self.locks@.contains(r)
    }

    /// The priorities of the pending activations, in spawn order.
    pub open spec fn pending_prios(self) -> Seq<int> {
        Seq::new(self.pending@.len(), |i: int| self.task_prio(self.pending@[i].task as int))
    }

    /// The pending index dispatch takes next: the earliest-spawned activation
    /// of the highest pending priority.
    pub open spec fn dispatch_choice(self) -> int {
        first_max_index(self.pending_prios())
    }

    /// Some pending activation clears the system ceiling.
    pub open spec fn has_ready(self) -> bool {
        self.pending@.len() > 0 && self.pending_prios()[self.dispatch_choice()]
            > self.sys_ceiling()
    }

    /// Computes the system ceiling.
    pub fn current_ceiling(&self) -> (c: u8)
        requires
            self.wf(),
        ensures
            c as int == self.sys_ceiling(),
    {
        let mut c: u8 = 0;
        let mut j: usize = 0;
        while j < self.locks.len()
            invariant
                self.wf(),
                j <= self.locks@.len(),
                c as int == max_held_ceiling(self.locks@, self.ceilings@, j as int),
            decreases self.locks@.len() - j,
        {
            let r = self.locks[j];
            let rc = self.ceilings[r];
            if rc > c {
                c = rc;
            }
            j = j + 1;
        }
        if self.frames.len() > 0 {
            let top = self.frames[self.frames.len() - 1].task;
            let bp = self.tasks[top].priority;
            if bp > c {
                c = bp;
            }
        }
        c
    }

    /// The task of the innermost running activation, `None` when the
    /// dispatcher idles.
    pub fn running_task(&self) -> (r: Option<usize>)
        ensures
            self.frames@.len() > 0 ==> r == Some(self.frames@.last().task),
            self.frames@.len() == 0 ==> r is None,
    {
        if self.frames.len() > 0 {
            Some(self.frames[self.frames.len() - 1].task)
        } else {
            None
        }
    }

    /// Queues an immediate activation of `task`. A full pending queue is
    /// reported to the caller, never silently dropped; otherwise the
    /// activation joins the back of the spawn-order queue.
    pub fn spawn(&mut self, task: usize, payload: u64) -> (r: Result<(), SpawnError>)
        requires
            old(self).wf(),
            task < old(self).n_tasks(),
        ensures
            final(self).wf(),
            same_wiring(*old(self), *final(self)),
            final(self).frames@ == old(self).frames@,
            final(self).locks@ == old(self).locks@,
            if old(self).pending@.len() < old(self).capacity {
                &&& r == Ok::<(), SpawnError>(())
                &&& final(self).pending@ == old(self).pending@.push(
                    (PendingEntry { task, payload }),
                )
            } else {
                &&& r == Err::<(), SpawnError>(SpawnError::QueueFull)
                &&& final(self).pending@ == old(self).pending@
            },
    {
        if self.pending.len() < self.capacity {
            self.pending.push(PendingEntry { task, payload });
            Ok(())
        } else {
            Err(SpawnError::QueueFull)
        }
    }

    /// Starts the next activation if one clears the system ceiling: the
    /// earliest-spawned among those of the highest pending priority. Returns
    /// the started activation, or `None` when nothing pending may preempt.
    pub fn try_dispatch(&mut self) -> (r: Option<PendingEntry>)
        requires
            old(self).wf(),
        ensures
            final(self).wf(),
            same_wiring(*old(self), *final(self)),
            final(self).locks@ == old(self).locks@,
            if old(self).has_ready() {
                &&& r == Some(old(self).pending@[old(self).dispatch_choice()])
                &&& old(self).can_preempt(
                    old(self).pending@[old(self).dispatch_choice()].task as int,
                )
                &&& final(self).pending@ == old(self).pending@.remove(
                    old(self).dispatch_choice(),
                )
                &&& final(self).frames@ == old(self).frames@.push(
                    (Frame {
                        task: old(self).pending@[old(self).dispatch_choice()].task,
                        locks_below: old(self).locks@.len() as usize,
                    }),
                )
            } else {
                &&& r is None
                &&& final(self).pending@ == old(self).pending@
                &&& final(self).frames@ == old(self).frames@
            },
    {
        if self.pending.len() == 0 {
            return None;
        }
        let ghost d0 = *self;
        let ghost pr = d0.pending_prios();
        let mut best: usize = 0;
        let mut i: usize = 1;
        while i < self.pending.len()
            invariant
                *self == d0,
                d0.wf(),
                pr == d0.pending_prios(),
                0 < i <= d0.pending@.len(),
                best < i,
                best as int == first_max_index(pr.take(i as int)),
            decreases d0.pending@.len() - i,
        {
            proof {
                assert(pr.take(i + 1).drop_last() =~= pr.take(i as int));
                assert(pr.take(i + 1).last() == pr[i as int]);
            }
            if self.tasks[self.pending[i].task].priority
                > self.tasks[self.pending[best].task].priority {
                best = i;
            }
            i = i + 1;
        }
        proof {
            assert(pr.take(d0.pending@.len() as int) =~= pr);
            lemma_first_max_index_props(pr);
        }
        let ceil = self.current_ceiling();
        let chosen_task = self.pending[best].task;
        let bp = self.tasks[chosen_task].priority;
        if bp > ceil {
            let e = self.pending.remove(best);
            let f = Frame { task: e.task, locks_below: self.locks.len() };
            self.frames.push(f);
            proof {
                let s0 = d0.pending@;
                let s1 = self.pending@;
                assert forall|k: int| 0 <= k < s1.len() implies (#[trigger] s1[k]).task
                    < self.n_tasks() by {
                    if k < best {
                        assert(s1[k] == s0[k]);
                    } else {
                        assert(s1[k] == s0[k + 1]);
                    }
                }
                let fr0 = d0.frames@;
                let fr1 = self.frames@;
                assert forall|a: int, b: int| 0 <= a < b < fr1.len() implies (
                #[trigger] fr1[a]).locks_below <= (#[trigger] fr1[b]).locks_below
                    && self.task_prio(fr1[a].task as int) < self.task_prio(fr1[b].task as int) by {
                    if b < fr0.len() {
                        assert(fr1[a] == fr0[a] && fr1[b] == fr0[b]);
                    } else {
                        assert(fr1[b] == f);
                        assert(fr1[a] == fr0[a]);
                        assert(d0.base_prio() <= d0.sys_ceiling());
                        if a + 1 < fr0.len() {
                            assert(fr0[a].locks_below <= fr0[fr0.len() - 1].locks_below);
                            assert(d0.task_prio(fr0[a].task as int) < d0.base_prio());
                        }
                    }
                }
            }
            Some(e)
        } else {
            None
        }
    }

    /// Finishes the innermost running activation: run-to-completion, so it
    /// must have released every lock it took. The previously preempted
    /// activation (if any) resumes.
    pub fn complete(&mut self) -> (t: usize)
        requires
            old(self).wf(),
            old(self).frames@.len() > 0,
            old(self).locks@.len() == old(self).frames@.last().locks_below,
        ensures
            final(self).wf(),
            same_wiring(*old(self), *final(self)),
            final(self).pending@ == old(self).pending@,
            final(self).locks@ == old(self).locks@,
            final(self).frames@ == old(self).frames@.drop_last(),
            t == old(self).frames@.last().task,
    {
        let f = self.frames.pop().unwrap();
        proof {
            assert(self.frames@ =~= old(self).frames@.drop_last());
        }
        f.task
    }

    /// Locks `resource` for the innermost running activation, which must be
    /// in the resource's declared access set and must not hold it already.
    /// The system ceiling rises to at least the resource's ceiling for as
    /// long as the lock is held, which is what keeps every sharing task out.
    pub fn lock(&mut self, resource: usize)
        requires
            old(self).wf(),
            old(self).frames@.len() > 0,
            resource < old(self).n_resources(),
            old(self).tasks@[old(self).frames@.last().task as int].access@[resource as int],
            !old(self).holds_lock(resource),
        ensures
            final(self).wf(),
            same_wiring(*old(self), *final(self)),
            final(self).pending@ == old(self).pending@,
            final(self).frames@ == old(self).frames@,
            final(self).locks@ == old(self).locks@.push(resource),
            final(self).sys_ceiling() == if old(self).ceilings@[resource as int] as int > old(
                self,
            ).sys_ceiling() {
                old(self).ceilings@[resource as int] as int
            } else {
                old(self).sys_ceiling()
            },
            old(self).ceilings@[resource as int] as int <= final(self).sys_ceiling(),
    {
        self.locks.push(resource);
        proof {
            let l0 = old(self).locks@;
            let l1 = self.locks@;
            lemma_max_held_ceiling_agrees(l1, l0, self.ceilings@, l0.len() as int);
            assert forall|j1: int, j2: int| 0 <= j1 < j2 < l1.len() implies (#[trigger] l1[j1])
                != (#[trigger] l1[j2]) by {
                if j2 == l1.len() - 1 {
                    assert(l1[j2] == resource);
                    assert(l1[j1] == l0[j1]);
                    assert(!l0.contains(resource));
                }
            }
        }
    }

    /// Releases the most recently taken lock, which must belong to the
    /// innermost running activation; the system ceiling falls back to what
    /// the remaining locks and the running priority give.
    pub fn unlock(&mut self)
        requires
            old(self).wf(),
            old(self).frames@.len() > 0,
            old(self).locks@.len() > old(self).frames@.last().locks_below,
        ensures
            final(self).wf(),
            same_wiring(*old(self), *final(self)),
            final(self).pending@ == old(self).pending@,
            final(self).frames@ == old(self).frames@,
            final(self).locks@ == old(self).locks@.drop_last(),
    {
        let _released = self.locks.pop();
        proof {
            assert(self.locks@ =~= old(self).locks@.drop_last());
            lemma_max_held_ceiling_agrees(
                self.locks@,
                old(self).locks@,
                self.ceilings@,
                self.locks@.len() as int,
            );
            let fr = self.frames@;
            assert forall|i: int| 0 <= i < fr.len() implies (#[trigger] fr[i]).locks_below
                <= self.locks@.len() by {
                if i < fr.len() - 1 {
                    assert(fr[i].locks_below <= fr[fr.len() - 1].locks_below);
                }
            }
        }
    }
}

/// Plain build-time wiring record: the task table, how many shared resources
/// exist, and the pending-queue capacity. Converting it with `build` is the
/// second phase of the two-phase builder and computes the ceilings.
pub struct Config {
    pub tasks: Vec<TaskDesc>,
    pub n_resources: usize,
    pub capacity: usize,
}

impl Config {
    /// Every task declares an access flag for each resource and a priority
    /// of at least one (priority zero is reserved for the idle loop).
    pub open spec fn wf(self) -> bool {
        forall|t: int|
            0 <= t < self.tasks@.len() ==> ((#[trigger] self.tasks@[t]).access@.len()
                == self.n_resources && 1 <= self.tasks@[t].priority)
    }

    /// Converts the wiring into a dispatcher, computing for every resource a
    /// ceiling equal to the maximum priority among the tasks in its access
    /// set. The dispatcher starts idle: nothing pending, nothing running,
    /// nothing locked.
    pub fn build(self) -> (d: Dispatcher)
        requires
            self.wf(),
        ensures
            d.wf(),
            d.tasks@ == self.tasks@,
            d.ceilings@.len() == self.n_resources,
            forall|r: int|
                0 <= r < self.n_resources ==> ceiling_is_max(
                    self.tasks@,
                    r,
                    (#[trigger] d.ceilings@[r]) as int,
                ),
            d.capacity == self.capacity,
            d.pending@.len() == 0,
            d.frames@.len() == 0,
            d.locks@.len() == 0,
    {
        let mut ceilings: Vec<u8> = Vec::new();
        let mut r: usize = 0;
        while r < self.n_resources
            invariant
                self.wf(),
                r <= self.n_resources,
                ceilings@.len() == r,
                forall|r2: int|
                    0 <= r2 < r ==> ceiling_is_max(
                        self.tasks@,
                        r2,
                        (#[trigger] ceilings@[r2]) as int,
                    ),
            decreases self.n_resources - r,
        {
            let mut c: u8 = 0;
            let mut t: usize = 0;
            while t < self.tasks.len()
                invariant
                    self.wf(),
                    r < self.n_resources,
                    t <= self.tasks@.len(),
                    forall|k: int|
                        #[trigger] in_access_set(self.tasks@, r as int, k) && k < t
                            ==> self.tasks@[k].priority as int <= c,
                    c != 0 ==> exists|k: int|
                        #[trigger] in_access_set(self.tasks@, r as int, k) && k < t
                            && self.tasks@[k].priority as int == c,
                    c == 0 ==> forall|k: int|
                        0 <= k < t ==> !(#[trigger] in_access_set(self.tasks@, r as int, k)),
                decreases self.tasks@.len() - t,
            {
                if self.tasks[t].access[r] {
                    proof {
                        assert(in_access_set(self.tasks@, r as int, t as int));
                    }
                    let p = self.tasks[t].priority;
                    if p > c {
                        c = p;
                    }
                }
                t = t + 1;
            }
            proof {
                assert(ceiling_is_max(self.tasks@, r as int, c as int));
            }
            ceilings.push(c);
            r = r + 1;
        }
        Dispatcher {
            tasks: self.tasks,
            ceilings,
            capacity: self.capacity,
            pending: Vec::new(),
            frames: Vec::new(),
            locks: Vec::new(),
        }
    }
}

/// Equal-priority activations dispatch in spawn order: when every pending
/// activation has the same priority, the next one taken is the head of the
/// queue, the earliest spawned.
pub proof fn lemma_equal_priority_fifo(d: Dispatcher)
    requires
        d.wf(),
        d.pending@.len() > 0,
        forall|i: int| 0 <= i < d.pending@.len() ==> #[trigger] d.pending_prios()[i]
            == d.pending_prios()[0],
    ensures
        d.dispatch_choice() == 0,
{
    lemma_first_max_index_props(d.pending_prios());
    let c = d.dispatch_choice();
    if c != 0 {
        assert(d.pending_prios()[0] < d.pending_prios()[c]);
        assert(d.pending_prios()[c] == d.pending_prios()[0]);
    }
}

impl Dispatcher {
    /// From idle, runs a backlog of equal-priority activations to
    /// completion. Dispatch order equals spawn order: the returned sequence
    /// is exactly the pending queue as it stood.
    pub fn run_pending_fifo(&mut self) -> (order: Vec<PendingEntry>)
        requires
            old(self).wf(),
            old(self).frames@.len() == 0,
            forall|i: int, j: int|
                0 <= i < old(self).pending@.len() && 0 <= j < old(self).pending@.len()
                    ==> #[trigger] old(self).pending_prios()[i] == #[trigger] old(
                    self,
                ).pending_prios()[j],
        ensures
            final(self).wf(),
            same_wiring(*old(self), *final(self)),
            final(self).pending@.len() == 0,
            final(self).frames@.len() == 0,
            final(self).locks@.len() == 0,
            order@ == old(self).pending@,
    {
        let mut order: Vec<PendingEntry> = Vec::new();
        while self.pending.len() > 0
            invariant
                self.wf(),
                same_wiring(*old(self), *self),
                self.frames@.len() == 0,
                self.locks@.len() == 0,
                order@ + self.pending@ == old(self).pending@,
                forall|i: int, j: int|
                    0 <= i < self.pending@.len() && 0 <= j < self.pending@.len()
                        ==> #[trigger] self.pending_prios()[i] == #[trigger] self.pending_prios()[j],
            decreases self.pending@.len(),
        {
            let ghost pre = *self;
            proof {
                lemma_equal_priority_fifo(pre);
                assert(pre.pending@[0].task < pre.n_tasks());
                assert(pre.sys_ceiling() == 0);
                assert(pre.pending_prios()[0] >= 1);
                assert(pre.has_ready());
            }
            let e = self.try_dispatch().unwrap();
            self.complete();
            order.push(e);
            proof {
                assert(self.pending@ == pre.pending@.remove(0));
                assert(order@ + self.pending@ =~= old(self).pending@);
                assert forall|i: int, j: int|
                    0 <= i < self.pending@.len() && 0 <= j
                        < self.pending@.len() implies #[trigger] self.pending_prios()[i]
                    == #[trigger] self.pending_prios()[j] by {
                    assert(self.pending@[i] == pre.pending@[i + 1]);
                    assert(self.pending@[j] == pre.pending@[j + 1]);
                    assert(pre.pending_prios()[i + 1] == pre.pending_prios()[j + 1]);
                }
            }
        }
        order
    }
}

/// Releasing a lock on every exit path restores the prior effective
/// priority: a `lock`/`unlock` pair leaves the lock stack — and with it the
/// system ceiling — exactly as it stood before the lock was taken.
pub proof fn lemma_lock_roundtrip_restores(
    pre: Dispatcher,
    locked: Dispatcher,
    released: Dispatcher,
    r: usize,
)
    requires
        same_wiring(pre, locked),
        same_wiring(locked, released),
        locked.pending@ == pre.pending@,
        released.pending@ == locked.pending@,
        locked.frames@ == pre.frames@,
        released.frames@ == locked.frames@,
        locked.locks@ == pre.locks@.push(r),
        released.locks@ == locked.locks@.drop_last(),
    ensures
        released.locks@ == pre.locks@,
        released.sys_ceiling() == pre.sys_ceiling(),
{
    assert(released.locks@ =~= pre.locks@);
    lemma_max_held_ceiling_agrees(
        released.locks@,
        pre.locks@,
        pre.ceilings@,
        pre.locks@.len() as int,
    );
}

/// While any task holds a lock on resource `r`, no task in `r`'s access set
/// clears the system ceiling: its trigger may fire, but its activation
/// cannot begin running until the lock is released. This is the
/// priority-ceiling exclusion guarantee.
pub proof fn lemma_locked_resource_blocks_sharer(d: Dispatcher, r: usize, t: usize)
    requires
        d.wf(),
        d.holds_lock(r),
        in_access_set(d.tasks@, r as int, t as int),
    ensures
        !d.can_preempt(t as int),
{
    let j = choose|j: int| 0 <= j < d.locks@.len() && d.locks@[j] == r;
    assert(d.locks@[j] < d.n_resources());
    lemma_max_held_ceiling_ge(d.locks@, d.ceilings@, d.locks@.len() as int, j);
    assert(ceiling_is_max(d.tasks@, r as int, d.ceilings@[r as int] as int));
    assert(d.task_prio(t as int) <= d.ceilings@[r as int] as int);
}

} // verus!
