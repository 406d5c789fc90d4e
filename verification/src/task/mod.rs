//! Task identity and the suspended computations the executor owns.
//!
//! A task is a tagged computation with a poll-once contract: polled, it
//! either completes or suspends after registering interest in whatever it
//! waits for. The waker a resource uses to mark the task ready again is an
//! explicit context object carried into each poll, a message back to the
//! scheduler rather than a captured callback.

use vstd::prelude::*;

use crate::key_conversion::KeyConversionLayout;
use crate::task::keyboard::OutputAction;
use crate::task::keyboard::ScancodeStream;
use crate::task::keyboard::UkKeyboard;
use crate::task::keyboard::process_scancode;

pub mod executor;
pub mod keyboard;

verus! {

/// What one poll step reports: the computation finished with a value, or it
/// suspended and will be woken by the resource it registered with.
#[derive(Debug, Clone, Copy, PartialEq, Eq, Structural)]
pub enum Poll<T> {
    Ready(T),
    Pending,
}

/// A task's identity: assigned once at creation from a monotonically
/// increasing counter and never reused.
#[derive(Debug, Clone, Copy, PartialEq, Eq, Structural, Hash)]
pub struct TaskId(pub u64);

impl TaskId {
    /// Draw the next identity from the kernel's task counter. The counter
    /// only grows, so no two tasks ever share an identity.
    pub fn new(next_id: &mut u64) -> (t: TaskId)
        requires
            *old(next_id) < u64::MAX,
        ensures
            t.0 == *old(next_id),
            *final(next_id) == *old(next_id) + 1,
    {
        let t = TaskId(*next_id);
        *next_id = *next_id + 1;
        t
    }
}

/// The context handed into each poll: the identity of the task being
/// polled, and the wakes the polled code requested. A resource that wants
/// that identity re-run records it here; the executor drains the
/// record into its ready queue after the poll returns.
pub struct PollContext {
    pub task: TaskId,
    pub wakes: Vec<TaskId>,
}

impl PollContext {
    pub fn new(task: TaskId) -> (c: PollContext)
        ensures
            c.task == task,
            c.wakes@ == Seq::<TaskId>::empty(),
    {
        PollContext { task, wakes: Vec::new() }
    }

    /// Request that the scheduler mark the polled identity ready again.
    pub fn wake(&mut self)
        ensures
            final(self).task == old(self).task,
            final(self).wakes@ == old(self).wakes@.push(old(self).task),
    {
        let id = self.task;
        self.wakes.push(id);
    }
}

/// The computations this kernel runs, as a tagged handle with a
/// poll-to-completion contract.
pub enum Computation {
    /// The boot-demo computation: produces its value and completes on the
    /// first poll, never suspending.
    Example { value: u32, printed: bool },
    /// A computation that suspends exactly once: its first poll wakes its
    /// own task and reports pending, its second completes.
    YieldOnce { yielded: bool },
    /// The key-press printer: drains the scancode stream, feeding each byte
    /// through the scan-code decoder and recording the display actions;
    /// suspends whenever the stream runs dry and never completes.
    KeyPresses {
        keyboard: UkKeyboard,
        layout: KeyConversionLayout,
        observed: Vec<u8>,
        actions: Vec<OutputAction>,
    },
}

impl Computation {
    /// The key-press printer in its start state: a fresh decoder, the given
    /// conversion layout, and nothing yet observed or displayed.
    pub fn new_key_presses(layout: KeyConversionLayout) -> (c: Computation)
        ensures
            c matches Computation::KeyPresses { keyboard: _, layout: l, observed, actions }
                ==> l == layout && observed@ == Seq::<u8>::empty() && actions@ == Seq::<
                OutputAction,
            >::empty(),
            c is KeyPresses,
    {
        Computation::KeyPresses {
            keyboard: crate::task::keyboard::keyboard_new(),
            layout,
            observed: Vec::new(),
            actions: Vec::new(),
        }
    }
}

/// Whether a computation is of a kind that finishes on its own, without
/// waiting on any outside event.
pub open spec fn spec_self_completing(c: Computation) -> bool {
    match c {
        Computation::Example { .. } => true,
        Computation::YieldOnce { .. } => true,
        Computation::KeyPresses { .. } => false,
    }
}

/// How many more times a computation can request its own wake; the
/// executor's run loop terminates because every poll pays for the wakes it
/// requests.
pub open spec fn spec_self_wakes_left(c: Computation) -> nat {
    match c {
        Computation::YieldOnce { yielded } => if yielded {
            0
        } else {
            1
        },
        _ => 0,
    }
}

/// A suspended computation together with its identity. Owned by the
/// executor once spawned; dropped when its computation completes.
pub struct Task {
    pub id: TaskId,
    pub computation: Computation,
}

impl Task {
    /// Wrap a computation as a task, drawing a fresh identity from the
    /// kernel's task counter.
    pub fn new(computation: Computation, next_id: &mut u64) -> (t: Task)
        requires
            *old(next_id) < u64::MAX,
        ensures
            t.id.0 == *old(next_id),
            t.computation == computation,
            *final(next_id) == *old(next_id) + 1,
    {
        let id = TaskId::new(next_id);
        Task { id, computation }
    }

    /// Poll the task's computation once. A ready result means the task is
    /// finished and may be dropped; pending means it registered interest —
    /// with the scancode stream, or with its own context — and will be
    /// polled again after a wake.
    pub fn poll(&mut self, context: &mut PollContext, stream: &mut ScancodeStream) -> (r: Poll<
        (),
    >)
        ensures
            final(self).id == old(self).id,
            final(context).task == old(context).task,
            final(stream).capacity() == old(stream).capacity(),
            old(self).computation matches Computation::Example { value, printed } ==> r
                == Poll::<()>::Ready(()) && final(self).computation == (Computation::Example {
                value,
                printed: true,
            }) && final(context).wakes@ == old(context).wakes@ && *final(stream) == *old(stream),
            old(self).computation matches Computation::YieldOnce { yielded } ==> (!yielded ==> r
                == Poll::<()>::Pending && final(self).computation == (Computation::YieldOnce {
                yielded: true,
            }) && final(context).wakes@ == old(context).wakes@.push(old(context).task) && *final(stream) == *old(stream)) && (yielded ==> r == Poll::<()>::Ready(()) && final(self).computation
                == old(self).computation && final(context).wakes@ == old(context).wakes@ && *final(stream) == *old(stream)),
            old(self).computation matches Computation::KeyPresses { .. } ==> r
                == Poll::<()>::Pending && final(context).wakes@ == old(context).wakes@ && final(self).computation is KeyPresses && final(stream).contents() == Seq::<u8>::empty() && final(stream).waker == Some(old(context).task) && (final(self).computation matches
                Computation::KeyPresses { observed, .. } ==> observed@ == (match old(self).computation {
                Computation::KeyPresses { observed: o0, .. } => o0@,
                _ => Seq::<u8>::empty(),
            }) + old(stream).contents()) && (final(self).computation matches
                Computation::KeyPresses { actions, .. } ==> (match old(self).computation {
                Computation::KeyPresses { actions: a0, .. } => a0@,
                _ => Seq::<OutputAction>::empty(),
            }).is_prefix_of(actions@)),
    {
        match &mut self.computation {
            Computation::Example { value: _, printed } => {
                *printed = true;
                Poll::Ready(())
            },
            Computation::YieldOnce { yielded } => {
                if !*yielded {
                    *yielded = true;
                    context.wake();
                    Poll::Pending
                } else {
                    Poll::Ready(())
                }
            },
            Computation::KeyPresses { keyboard, layout, observed, actions } => {
                let ghost obs0 = observed@;
                let ghost act0 = actions@;
                let ghost bytes0 = stream.contents();
                let ghost cap0 = stream.capacity();
                let ghost task0 = context.task;
                let ghost wakes0 = context.wakes@;
                proof {
                    assert(observed@ =~= obs0 + bytes0.take(0));
                    assert(stream.contents() =~= bytes0.skip(0));
                    assert(actions@.take(act0.len() as int) =~= act0);
                }
                loop
                    invariant
                        stream.capacity() == cap0,
                        observed@ == obs0 + bytes0.take(bytes0.len() - stream.contents().len()),
                        stream.contents().len() <= bytes0.len(),
                        stream.contents() == bytes0.skip(bytes0.len() - stream.contents().len()),
                        context.task == task0,
                        context.wakes@ == wakes0,
                        act0.is_prefix_of(actions@),
                    ensures
                        stream.capacity() == cap0,
                        observed@ == obs0 + bytes0,
                        stream.contents() == Seq::<u8>::empty(),
                        stream.waker == Some(task0),
                        context.task == task0,
                        context.wakes@ == wakes0,
                        act0.is_prefix_of(actions@),
                    decreases stream.contents().len(),
                {
                    let ghost before = stream.contents();
                    match stream.poll_next(context.task) {
                        Poll::Ready(Some(scancode)) => {
                            observed.push(scancode);
                            proof {
                                assert(before[0] == bytes0[bytes0.len()
                                    - before.len()]);
                                assert(observed@ =~= obs0 + bytes0.take(
                                    bytes0.len() - stream.contents().len(),
                                ));
                                assert(stream.contents() =~= bytes0.skip(
                                    bytes0.len() - stream.contents().len(),
                                ));
                            }
                            match process_scancode(keyboard, layout, scancode) {
                                Some(action) => {
                                    actions.push(action);
                                    proof {
                                        assert(actions@.take(act0.len() as int) =~= act0);
                                    }
                                },
                                None => {},
                            }
                        },
                        Poll::Ready(None) => {
                            // unreachable: the stream never ends
                            proof {
                                assert(false);
                            }
                        },
                        Poll::Pending => {
                            proof {
                                assert(before.len() == 0);
                                assert(bytes0.take(bytes0.len() as int) =~= bytes0);
                                assert(stream.contents() =~= Seq::<u8>::empty());
                            }
                            break ;
                        },
                    }
                }
                Poll::Pending
            },
        }
    }
}

} // verus!
