//! The cooperative executor: owns the spawned tasks, polls the ready ones,
//! and parks the CPU when nothing is runnable.
//!
//! A task is *ready* when its identity sits in the run queue, *waiting*
//! when it registered a waker with a resource, and gone once it completed.
//! Waking an already-ready task is a harmless no-op, and a wake for a
//! completed task is dropped. The run loop terminates because every poll
//! pays for the wakes it requests: the measure is the run-queue length plus
//! the self-wakes the remaining computations can still request.

use vstd::prelude::*;

use crate::task::Computation;
use crate::task::Poll;
use crate::task::PollContext;
use crate::task::Task;
use crate::task::TaskId;
use crate::task::keyboard::ScancodeStream;
use crate::task::spec_self_completing;
use crate::task::spec_self_wakes_left;

verus! {

/// The self-wakes all remaining computations can still request.
pub open spec fn spec_total_wakes(tasks: Seq<Task>) -> nat
    decreases tasks.len(),
{
    if tasks.len() == 0 {
        0
    } else {
        spec_self_wakes_left(tasks[0].computation) + spec_total_wakes(tasks.drop_first())
    }
}

proof fn lemma_total_wakes_remove(tasks: Seq<Task>, i: int)
    requires
        0 <= i < tasks.len(),
    ensures
        spec_total_wakes(tasks) == spec_total_wakes(tasks.remove(i)) + spec_self_wakes_left(
            tasks[i].computation,
        ),
    decreases tasks.len(),
{
    if i == 0 {
        assert(tasks.remove(0) =~= tasks.drop_first());
    } else {
        lemma_total_wakes_remove(tasks.drop_first(), i - 1);
        assert(tasks.remove(i).drop_first() =~= tasks.drop_first().remove(i - 1));
        assert(tasks.remove(i)[0] == tasks[0]);
    }
}

proof fn lemma_total_wakes_push(tasks: Seq<Task>, t: Task)
    ensures
        spec_total_wakes(tasks.push(t)) == spec_total_wakes(tasks) + spec_self_wakes_left(
            t.computation,
        ),
    decreases tasks.len(),
{
    let p = tasks.push(t);
    assert(p.len() == tasks.len() + 1);
    assert(spec_total_wakes(p) == spec_self_wakes_left(p[0].computation) + spec_total_wakes(
        p.drop_first(),
    ));
    if tasks.len() == 0 {
        assert(p.drop_first() =~= Seq::<Task>::empty());
        assert(p[0] == t);
        assert(spec_total_wakes(p.drop_first()) == 0);
    } else {
        lemma_total_wakes_push(tasks.drop_first(), t);
        assert(p.drop_first() =~= tasks.drop_first().push(t));
        assert(p[0] == tasks[0]);
        assert(spec_total_wakes(tasks) == spec_self_wakes_left(tasks[0].computation)
            + spec_total_wakes(tasks.drop_first()));
    }
}

/// The CPU's interrupt-enable flag, as the executor's parking discipline
/// sees it: wakes can only arrive while it is enabled, so an emptiness
/// check made while it is disabled cannot be raced.
pub struct InterruptFlag {
    pub enabled: bool,
}

impl InterruptFlag {
    pub fn new(enabled: bool) -> (f: InterruptFlag)
        ensures
            f.enabled == enabled,
    {
        InterruptFlag { enabled }
    }

    /// Disable interrupt delivery for a short critical section.
    pub fn disable(&mut self)
        requires
            old(self).enabled,
        ensures
            !final(self).enabled,
    {
        self.enabled = false;
    }

    /// Re-enable interrupt delivery without parking.
    pub fn enable(&mut self)
        requires
            !old(self).enabled,
        ensures
            final(self).enabled,
    {
        self.enabled = true;
    }

    /// Re-enable interrupts and park in a low-power wait, as one atomic
    /// step: an interrupt arriving at any point after the check wakes the
    /// CPU out of the wait instead of being lost.
    pub fn enable_and_park(&mut self)
        requires
            !old(self).enabled,
        ensures
            final(self).enabled,
    {
        self.enabled = true;
    }
}

/// Find the position of the task with the given identity.
fn find_task(tasks: &Vec<Task>, id: TaskId) -> (r: Option<usize>)
    ensures
        r matches Some(i) ==> i < tasks@.len() && tasks@[i as int].id == id,
        r is None ==> forall|i: int| 0 <= i < tasks@.len() ==> tasks@[i].id != id,
{
    let mut i: usize = 0;
    while i < tasks.len()
        invariant
            i <= tasks@.len(),
            forall|j: int| 0 <= j < i ==> tasks@[j].id != id,
        decreases tasks@.len() - i,
    {
        if tasks.get(i).unwrap().id == id {
            return Some(i);
        }
        i = i + 1;
    }
    None
}

/// Whether an identity is already queued as ready.
fn ready_contains(ready: &Vec<TaskId>, id: TaskId) -> (r: bool)
    ensures
        r == ready@.contains(id),
{
    let mut i: usize = 0;
    while i < ready.len()
        invariant
            i <= ready@.len(),
            forall|j: int| 0 <= j < i ==> ready@[j] != id,
        decreases ready@.len() - i,
    {
        if *ready.get(i).unwrap() == id {
            return true;
        }
        i = i + 1;
    }
    false
}

/// The cooperative executor's state: the spawned tasks, keyed by their
/// identities, and the run queue of ready identities in wake order.
pub struct Executor {
    pub tasks: Vec<Task>,
    pub ready: Vec<TaskId>,
}

impl Executor {
    /// Whether a task with this identity is currently owned.
    pub open spec fn spec_has_task(self, id: TaskId) -> bool {
        exists|i: int| 0 <= i < self.tasks@.len() && (#[trigger] self.tasks@[i]).id == id
    }

    /// Well-formedness: identities are unique, and the run queue holds each
    /// live identity at most once.
    pub open spec fn wf(self) -> bool {
        &&& forall|i: int, j: int|
            0 <= i < j < self.tasks@.len() ==> (#[trigger] self.tasks@[i]).id != (
            #[trigger] self.tasks@[j]).id
        &&& forall|i: int|
            0 <= i < self.ready@.len() ==> self.spec_has_task(#[trigger] self.ready@[i])
        &&& self.ready@.no_duplicates()
    }

    /// A fresh executor with nothing spawned.
    pub fn new() -> (e: Executor)
        ensures
            e.wf(),
            e.tasks@.len() == 0,
            e.ready@.len() == 0,
    {
        Executor { tasks: Vec::new(), ready: Vec::new() }
    }

    /// Adopt a task and mark it ready for the next run cycle. Spawning two
    /// tasks with one identity is a programming error, ruled out when every
    /// identity is drawn from the kernel's counter.
    pub fn spawn(&mut self, task: Task)
        requires
            old(self).wf(),
            !old(self).spec_has_task(task.id),
        ensures
            final(self).wf(),
            final(self).tasks@ == old(self).tasks@.push(task),
            final(self).ready@ == old(self).ready@.push(task.id),
    {
        proof {
            assert(forall|i: int|
                0 <= i < self.ready@.len() ==> #[trigger] self.ready@[i] != task.id);
        }
        let id = task.id;
        self.tasks.push(task);
        self.ready.push(id);
        proof {
            assert forall|i: int|
                0 <= i < self.ready@.len() implies self.spec_has_task(
                #[trigger] self.ready@[i],
            ) by {
                if i < self.ready@.len() - 1 {
                    let w = choose|w: int|
                        0 <= w < old(self).tasks@.len() && (#[trigger] old(self).tasks@[w]).id
                            == old(self).ready@[i];
                    assert(self.tasks@[w].id == self.ready@[i]);
                } else {
                    assert(self.tasks@[self.tasks@.len() - 1].id == task.id);
                }
            }
        }
    }

    /// Mark the task with this identity ready. Waking an already-ready
    /// task is a no-op, never a duplicate run; a wake for a completed
    /// (dropped) task is discarded.
    pub fn wake(&mut self, id: TaskId)
        requires
            old(self).wf(),
        ensures
            final(self).wf(),
            final(self).tasks@ == old(self).tasks@,
            old(self).ready@.contains(id) || !old(self).spec_has_task(id) ==> final(self).ready@
                == old(self).ready@,
            !old(self).ready@.contains(id) && old(self).spec_has_task(id) ==> final(self).ready@
                == old(self).ready@.push(id),
    {
        if ready_contains(&self.ready, id) {
            return ;
        }
        match find_task(&self.tasks, id) {
            Some(_) => {
                self.ready.push(id);
                proof {
                    assert forall|i: int|
                        0 <= i < self.ready@.len() implies self.spec_has_task(
                        #[trigger] self.ready@[i],
                    ) by {
                        if i < self.ready@.len() - 1 {
                            assert(old(self).spec_has_task(old(self).ready@[i]));
                        }
                    }
                }
            },
            None => {
                proof {
                    assert(!old(self).spec_has_task(id));
                }
            },
        }
    }

    /// Poll ready tasks until none is ready: pop an identity, poll its
    /// task with a waker bound to that identity, drop the task if it
    /// completed, and queue whatever wakes the poll requested. Returns
    /// only when the run queue is empty. Tasks are dropped only by
    /// completing: one that was never ready survives untouched, the
    /// never-completing key-press printer always survives, and if it was
    /// ready it has drained the scancode stream and registered its waker.
    /// If every spawned task was of a self-completing kind and was ready,
    /// none remains.
    #[verifier::rlimit(100)]
    pub fn run(&mut self, stream: &mut ScancodeStream)
        requires
            old(self).wf(),
        ensures
            final(self).wf(),
            final(self).ready@.len() == 0,
            final(stream).capacity() == old(stream).capacity(),
            (forall|i: int|
                0 <= i < old(self).tasks@.len() ==> spec_self_completing(
                    (#[trigger] old(self).tasks@[i]).computation,
                ) && old(self).ready@.contains(old(self).tasks@[i].id)) ==> final(self).tasks@.len() == 0,
            forall|i: int|
                0 <= i < final(self).tasks@.len() ==> exists|j: int|
                    0 <= j < old(self).tasks@.len() && (#[trigger] final(self).tasks@[i]).id
                        == old(self).tasks@[j].id,
            forall|j: int|
                0 <= j < old(self).tasks@.len() && !old(self).ready@.contains(
                    (#[trigger] old(self).tasks@[j]).id,
                ) ==> exists|i: int|
                    0 <= i < final(self).tasks@.len() && #[trigger] final(self).tasks@[i] == old(self).tasks@[j],
            forall|j: int|
                0 <= j < old(self).tasks@.len() && (#[trigger] old(self).tasks@[j]).computation is KeyPresses ==> exists|i: int|
                    0 <= i < final(self).tasks@.len() && (#[trigger] final(self).tasks@[i]).id
                        == old(self).tasks@[j].id && final(self).tasks@[i].computation is KeyPresses,
            (exists|j: int|
                0 <= j < old(self).tasks@.len() && (#[trigger] old(self).tasks@[j]).computation is KeyPresses && old(self).ready@.contains(
                    old(self).tasks@[j].id,
                )) ==> final(stream).contents() == Seq::<u8>::empty() && final(stream).waker is Some,
    {
        let ghost tracked_all = forall|i: int|
            0 <= i < old(self).tasks@.len() ==> spec_self_completing(
                (#[trigger] old(self).tasks@[i]).computation,
            ) && old(self).ready@.contains(old(self).tasks@[i].id);
        let ghost t_init = old(self).tasks@;
        let ghost r_init = old(self).ready@;
        let ghost has_ready_consumer = exists|j: int|
            0 <= j < t_init.len() && (#[trigger] t_init[j]).computation is KeyPresses
                && r_init.contains(t_init[j].id);
        let ghost cap0 = stream.capacity();
        while self.ready.len() > 0
            invariant
                self.wf(),
                stream.capacity() == cap0,
                tracked_all ==> forall|i: int|
                    0 <= i < self.tasks@.len() ==> spec_self_completing(
                        (#[trigger] self.tasks@[i]).computation,
                    ) && self.ready@.contains(self.tasks@[i].id),
                forall|i: int|
                    0 <= i < self.ready@.len() ==> r_init.contains(#[trigger] self.ready@[i]),
                forall|i: int|
                    0 <= i < self.tasks@.len() ==> exists|j: int|
                        0 <= j < t_init.len() && (#[trigger] self.tasks@[i]).id == t_init[j].id,
                forall|j: int|
                    0 <= j < t_init.len() && !r_init.contains((#[trigger] t_init[j]).id)
                        ==> exists|i: int|
                        0 <= i < self.tasks@.len() && #[trigger] self.tasks@[i] == t_init[j],
                forall|j: int|
                    0 <= j < t_init.len() && (#[trigger] t_init[j]).computation is KeyPresses
                        ==> exists|i: int|
                        0 <= i < self.tasks@.len() && (#[trigger] self.tasks@[i]).id
                            == t_init[j].id && self.tasks@[i].computation is KeyPresses,
                has_ready_consumer ==> (exists|i: int|
                    0 <= i < self.tasks@.len() && (#[trigger] self.tasks@[i]).computation
                        is KeyPresses && self.ready@.contains(self.tasks@[i].id)) || (
                stream.contents() == Seq::<u8>::empty() && stream.waker is Some),
            decreases self.ready@.len() + 2 * spec_total_wakes(self.tasks@),
        {
            let ghost self_at_entry = *self;
            let ghost stream_at_entry = *stream;
            let ghost ready_at_entry = self.ready@;
            let ghost tasks_at_entry = self.tasks@;
            let id = self.ready.remove(0);
            proof {
                assert(ready_at_entry[0] == id);
                assert(ready_at_entry.contains(id));
                assert(self.ready@ =~= ready_at_entry.drop_first());
            }
            let idx = match find_task(&self.tasks, id) {
                Some(i) => i,
                None => {
                    // unreachable: every queued identity has its task
                    proof {
                        assert(self_at_entry.spec_has_task(id));
                        let w = choose|w: int|
                            0 <= w < self_at_entry.tasks@.len() && (
                            #[trigger] self_at_entry.tasks@[w]).id == id;
                        assert(self.tasks@[w].id == id);
                        assert(false);
                    }
                    return ;
                },
            };
            let mut task = self.tasks.remove(idx);
            proof {
                lemma_total_wakes_remove(tasks_at_entry, idx as int);
            }
            let ghost tasks_mid = self.tasks@;
            let mut ctx = PollContext::new(id);
            let polled = task.poll(&mut ctx, stream);
            let ghost wl_before = spec_self_wakes_left(tasks_at_entry[idx as int].computation);
            let ghost wl_after = spec_self_wakes_left(task.computation);
            match polled {
                Poll::Ready(()) => {},
                Poll::Pending => {
                    self.tasks.push(task);
                    proof {
                        lemma_total_wakes_push(tasks_mid, task);
                    }
                },
            }
            proof {
                // identities stay unique: the re-inserted task keeps the
                // identity that was unique at entry
                assert forall|i: int, j: int|
                    0 <= i < j < self.tasks@.len() implies (#[trigger] self.tasks@[i]).id != (
                    #[trigger] self.tasks@[j]).id by {
                    if polled is Pending && j == self.tasks@.len() - 1 {
                        assert(self.tasks@[j].id == id);
                        assert(tasks_at_entry[idx as int].id == id);
                        if i < idx {
                            assert(self.tasks@[i] == tasks_at_entry[i]);
                        } else {
                            assert(self.tasks@[i] == tasks_at_entry[i + 1]);
                        }
                    } else {
                        let oi: int = if i < idx {
                            i
                        } else {
                            i + 1
                        };
                        let oj: int = if j < idx {
                            j
                        } else {
                            j + 1
                        };
                        assert(self.tasks@[i] == tasks_at_entry[oi]);
                        assert(self.tasks@[j] == tasks_at_entry[oj]);
                    }
                }
                // the popped identity is not queued again yet, and every
                // queued identity still has its task
                assert(!self.ready@.contains(id)) by {
                    if self.ready@.contains(id) {
                        let v = choose|v: int|
                            0 <= v < self.ready@.len() && self.ready@[v] == id;
                        assert(ready_at_entry[v + 1] == id);
                        assert(!ready_at_entry.no_duplicates() || ready_at_entry[0] != id
                            || true);
                        assert(ready_at_entry[0] == id);
                        assert(false);
                    }
                }
                assert forall|i: int|
                    0 <= i < self.ready@.len() implies self.spec_has_task(
                    #[trigger] self.ready@[i],
                ) by {
                    let x = self.ready@[i];
                    assert(ready_at_entry[i + 1] == x);
                    assert(self_at_entry.spec_has_task(x));
                    let w = choose|w: int|
                        0 <= w < tasks_at_entry.len() && (#[trigger] tasks_at_entry[w]).id == x;
                    if w == idx {
                        assert(x == id);
                        assert(false);
                    } else if w < idx {
                        assert(self.tasks@[w] == tasks_at_entry[w]);
                    } else {
                        assert(self.tasks@[w - 1] == tasks_at_entry[w]);
                    }
                }
            }
            let ghost ready_after_poll = self.ready@;
            let ghost tasks_after_poll = self.tasks@;
            proof {
                assert(forall|j: int| 0 <= j < ctx.wakes@.len() ==> #[trigger] ctx.wakes@[j] == id);
            }
            let mut w: usize = 0;
            while w < ctx.wakes.len()
                invariant
                    self.wf(),
                    w <= ctx.wakes@.len(),
                    self.tasks@ == tasks_after_poll,
                    self.ready@.len() <= ready_after_poll.len() + w,
                    forall|j: int| 0 <= j < ctx.wakes@.len() ==> #[trigger] ctx.wakes@[j] == id,
                    forall|i: int|
                        0 <= i < self.ready@.len() ==> ready_after_poll.contains(
                            #[trigger] self.ready@[i],
                        ) || self.ready@[i] == id,
                    forall|x: TaskId|
                        ready_after_poll.contains(x) ==> #[trigger] self.ready@.contains(x),
                    forall|j: int|
                        0 <= j < w ==> self.ready@.contains(#[trigger] ctx.wakes@[j])
                            || !self.spec_has_task(ctx.wakes@[j]),
                decreases ctx.wakes@.len() - w,
            {
                let ghost ready_pre = self.ready@;
                let ghost self_pre = *self;
                let wid = *ctx.wakes.get(w).unwrap();
                self.wake(wid);
                proof {
                    assert forall|x: TaskId| ready_pre.contains(x)
                        implies #[trigger] self.ready@.contains(x) by {
                        if self.ready@ != ready_pre {
                            let v = choose|v: int|
                                0 <= v < ready_pre.len() && ready_pre[v] == x;
                            assert(self.ready@ == ready_pre.push(wid));
                            assert(self.ready@[v] == x);
                        }
                    }
                    assert forall|i: int|
                        0 <= i < self.ready@.len() implies ready_after_poll.contains(
                        #[trigger] self.ready@[i],
                    ) || self.ready@[i] == id by {
                        if self.ready@ != ready_pre {
                            assert(self.ready@ == ready_pre.push(wid));
                            if i < self.ready@.len() - 1 {
                                assert(self.ready@[i] == ready_pre[i]);
                            } else {
                                assert(self.ready@[i] == wid);
                            }
                        }
                    }
                    assert(self.ready@.contains(wid) || !self.spec_has_task(wid)) by {
                        if ready_pre.contains(wid) {
                            assert(self.ready@.contains(wid));
                        } else if self_pre.spec_has_task(wid) {
                            assert(self.ready@ == ready_pre.push(wid));
                            assert(self.ready@[self.ready@.len() - 1] == wid);
                            assert(self.ready@.contains(wid));
                        } else {
                            assert(self.tasks@ == self_pre.tasks@);
                        }
                    }
                }
                w = w + 1;
            }
            proof {
                // the measure shrinks: the popped entry pays for this poll,
                // and any new ready entry is paid for out of the polled
                // computation's own wake budget
                assert(spec_total_wakes(tasks_at_entry) == spec_total_wakes(tasks_mid)
                    + wl_before);
                if polled is Pending {
                    assert(spec_total_wakes(self.tasks@) == spec_total_wakes(tasks_mid)
                        + wl_after);
                    match tasks_at_entry[idx as int].computation {
                        Computation::YieldOnce { yielded } => {
                            assert(!yielded);
                            assert(wl_before == 1 && wl_after == 0);
                            assert(ctx.wakes@.len() == 1);
                        },
                        Computation::KeyPresses { .. } => {
                            assert(ctx.wakes@.len() == 0);
                            assert(wl_before == 0 && wl_after == 0);
                        },
                        Computation::Example { .. } => {
                            assert(false);
                        },
                    }
                } else {
                    match tasks_at_entry[idx as int].computation {
                        Computation::YieldOnce { yielded } => {
                            assert(yielded);
                            assert(ctx.wakes@.len() == 0);
                        },
                        Computation::Example { .. } => {
                            assert(ctx.wakes@.len() == 0);
                        },
                        Computation::KeyPresses { .. } => {
                            assert(false);
                        },
                    }
                }
                assert(self.ready@.len() + 2 * spec_total_wakes(self.tasks@)
                    < ready_at_entry.len() + 2 * spec_total_wakes(tasks_at_entry));
                // the completing-kind tracking is preserved
                if tracked_all {
                    assert forall|i: int|
                        0 <= i < self.tasks@.len() implies spec_self_completing(
                        (#[trigger] self.tasks@[i]).computation,
                    ) && self.ready@.contains(self.tasks@[i].id) by {
                        let t = self.tasks@[i];
                        if polled is Pending && i == self.tasks@.len() - 1 {
                            assert(t == task);
                            match tasks_at_entry[idx as int].computation {
                                Computation::YieldOnce { yielded } => {
                                    assert(ctx.wakes@[0] == id);
                                    assert(task.id == id);
                                    assert(self.spec_has_task(id)) by {
                                        assert(self.tasks@[i].id == id);
                                    }
                                    assert(self.ready@.contains(id));
                                },
                                _ => {
                                    assert(spec_self_completing(
                                        tasks_at_entry[idx as int].computation,
                                    ));
                                },
                            }
                        } else {
                            let orig: int = if i < idx {
                                i
                            } else {
                                i + 1
                            };
                            assert(t == tasks_at_entry[orig]);
                            assert(spec_self_completing(t.computation));
                            assert(ready_at_entry.contains(t.id));
                            assert(t.id != id);
                            let v = choose|v: int|
                                0 <= v < ready_at_entry.len() && ready_at_entry[v] == t.id;
                            assert(ready_at_entry.drop_first()[v - 1] == t.id);
                            assert(ready_after_poll.contains(t.id));
                            assert(self.ready@.contains(t.id));
                        }
                    }
                }
                // provenance: every queued identity came from the initial
                // run queue, every task keeps an initial identity
                assert forall|i: int|
                    0 <= i < self.ready@.len() implies r_init.contains(
                    #[trigger] self.ready@[i],
                ) by {
                    let x = self.ready@[i];
                    if ready_after_poll.contains(x) {
                        let v = choose|v: int|
                            0 <= v < ready_after_poll.len() && ready_after_poll[v] == x;
                        assert(ready_at_entry[v + 1] == x);
                    } else {
                        assert(x == id);
                        assert(ready_at_entry[0] == id);
                    }
                }
                assert forall|i: int|
                    0 <= i < self.tasks@.len() implies exists|j: int|
                    0 <= j < t_init.len() && (#[trigger] self.tasks@[i]).id == t_init[j].id by {
                    if polled is Pending && i == self.tasks@.len() - 1 {
                        assert(self.tasks@[i].id == tasks_at_entry[idx as int].id);
                    } else {
                        let orig: int = if i < idx {
                            i
                        } else {
                            i + 1
                        };
                        assert(self.tasks@[i] == tasks_at_entry[orig]);
                    }
                }
                // a task that was never ready was not polled: it survives
                // untouched
                assert(r_init.contains(id)) by {
                    assert(ready_at_entry[0] == id);
                }
                assert forall|j: int|
                    0 <= j < t_init.len() && !r_init.contains((#[trigger] t_init[j]).id)
                    implies exists|i: int|
                    0 <= i < self.tasks@.len() && #[trigger] self.tasks@[i] == t_init[j] by {
                    let w2 = choose|w2: int|
                        0 <= w2 < tasks_at_entry.len() && #[trigger] tasks_at_entry[w2]
                            == t_init[j];
                    assert(tasks_at_entry[idx as int].id == id);
                    assert(w2 != idx);
                    if w2 < idx {
                        assert(self.tasks@[w2] == tasks_at_entry[w2]);
                    } else {
                        assert(self.tasks@[w2 - 1] == tasks_at_entry[w2]);
                    }
                }
                // the never-completing consumer survives every cycle
                assert forall|j: int|
                    0 <= j < t_init.len() && (#[trigger] t_init[j]).computation is KeyPresses
                    implies exists|i: int|
                    0 <= i < self.tasks@.len() && (#[trigger] self.tasks@[i]).id == t_init[j].id
                        && self.tasks@[i].computation is KeyPresses by {
                    let w2 = choose|w2: int|
                        0 <= w2 < tasks_at_entry.len() && (#[trigger] tasks_at_entry[w2]).id
                            == t_init[j].id && tasks_at_entry[w2].computation is KeyPresses;
                    if w2 == idx {
                        assert(tasks_at_entry[idx as int].computation is KeyPresses);
                        assert(polled is Pending);
                        assert(self.tasks@[self.tasks@.len() - 1] == task);
                        assert(task.computation is KeyPresses);
                        assert(task.id == id && tasks_at_entry[idx as int].id == id);
                    } else if w2 < idx {
                        assert(self.tasks@[w2] == tasks_at_entry[w2]);
                    } else {
                        assert(self.tasks@[w2 - 1] == tasks_at_entry[w2]);
                    }
                }
                // a ready consumer either stays queued or has just drained
                // the stream and registered its waker
                if has_ready_consumer {
                    if exists|i2: int|
                        0 <= i2 < tasks_at_entry.len() && (
                        #[trigger] tasks_at_entry[i2]).computation is KeyPresses
                            && ready_at_entry.contains(tasks_at_entry[i2].id) {
                        let i2 = choose|i2: int|
                            0 <= i2 < tasks_at_entry.len() && (
                            #[trigger] tasks_at_entry[i2]).computation is KeyPresses
                                && ready_at_entry.contains(tasks_at_entry[i2].id);
                        let cid = tasks_at_entry[i2].id;
                        if cid == id {
                            assert(i2 == idx) by {
                                assert(self_at_entry.wf());
                                assert(tasks_at_entry[idx as int].id == id);
                                if i2 != idx {
                                    assert(tasks_at_entry[i2].id != tasks_at_entry[idx as int].id);
                                }
                            }
                            assert(tasks_at_entry[idx as int].computation is KeyPresses);
                            assert(stream.contents() == Seq::<u8>::empty());
                            assert(stream.waker is Some);
                        } else {
                            assert(i2 != idx) by {
                                assert(tasks_at_entry[idx as int].id == id);
                            }
                            let wi: int = if i2 < idx {
                                i2
                            } else {
                                i2 - 1
                            };
                            assert(self.tasks@[wi] == tasks_at_entry[i2]);
                            let v = choose|v: int|
                                0 <= v < ready_at_entry.len() && ready_at_entry[v] == cid;
                            assert(v != 0);
                            assert(ready_after_poll[v - 1] == cid);
                            assert(ready_after_poll.contains(cid));
                            assert(self.ready@.contains(cid));
                            assert(self.tasks@[wi].computation is KeyPresses
                                && self.ready@.contains(self.tasks@[wi].id));
                        }
                    } else {
                        assert(stream_at_entry.contents() == Seq::<u8>::empty()
                            && stream_at_entry.waker is Some);
                        match tasks_at_entry[idx as int].computation {
                            Computation::KeyPresses { .. } => {
                                assert(stream.contents() == Seq::<u8>::empty());
                                assert(stream.waker is Some);
                            },
                            _ => {
                                assert(*stream == stream_at_entry);
                            },
                        }
                    }
                }
            }
        }
        proof {
            if tracked_all && self.tasks@.len() > 0 {
                assert(self.ready@.contains(self.tasks@[0].id));
                assert(false);
            }
            if has_ready_consumer {
                // with the run queue empty only the drained disjunct remains
                if exists|i: int|
                    0 <= i < self.tasks@.len() && (#[trigger] self.tasks@[i]).computation
                        is KeyPresses && self.ready@.contains(self.tasks@[i].id) {
                    let i = choose|i: int|
                        0 <= i < self.tasks@.len() && (#[trigger] self.tasks@[i]).computation
                            is KeyPresses && self.ready@.contains(self.tasks@[i].id);
                    assert(false);
                }
            }
        }
    }

    /// Decide whether to park the CPU: with interrupt delivery disabled the
    /// run queue is checked once more, closing the race against a wake
    /// arriving between the check and the halt, and the CPU is parked with
    /// interrupts re-enabled atomically. A wake delivered before the check
    /// keeps the CPU running; none can arrive between check and park.
    pub fn sleep_if_idle(&self, interrupts: &mut InterruptFlag) -> (parked: bool)
        requires
            old(interrupts).enabled,
        ensures
            final(interrupts).enabled,
            parked == (self.ready@.len() == 0),
    {
        interrupts.disable();
        if self.ready.len() == 0 {
            interrupts.enable_and_park();
            true
        } else {
            interrupts.enable();
            false
        }
    }
}

} // verus!
