use vstd::prelude::*;
use crate::abi::Tid;
use crate::kernel::{schedule_effect, sleep_effect, Kernel};
use crate::thread::Status;

verus! {

/// What `wait` did.
#[derive(Clone, Copy, Debug, PartialEq, Eq, Structural)]
pub enum SemaphoreWaitResult {
    Acquired,
    Enqueued,
}

/// A counting semaphore with a FIFO list of sleeping waiters.
pub struct Semaphore {
    value: usize,
    queue: std::collections::VecDeque<Tid>,
}

impl Semaphore {
    pub closed spec fn value_spec(&self) -> nat {
        self.value as nat
    }

    /// The waiters, first come first.
    pub closed spec fn waiters(&self) -> Seq<Tid> {
        self.queue@
    }

    pub fn new() -> (r: Semaphore)
        ensures
            r.value_spec() == 0,
            r.waiters().len() == 0,
    {
        Semaphore { value: 0, queue: std::collections::VecDeque::new() }
    }

    /// Takes a unit if one is left; otherwise puts `t` to sleep at the back
    /// of the waiters.
    pub fn wait(&mut self, k: &mut Kernel, t: Tid) -> (r: SemaphoreWaitResult)
        requires
            old(k).wf(),
            old(k).thread(t as int) is Some,
        ensures
            final(k).wf(),
            old(self).value_spec() > 0 ==> r == SemaphoreWaitResult::Acquired && final(self).value_spec()
                == old(self).value_spec() - 1 && final(self).waiters() == old(self).waiters() && *final(k)
                == *old(k),
            old(self).value_spec() == 0 ==> r == SemaphoreWaitResult::Enqueued && final(self).value_spec() == 0
                && final(self).waiters() == old(self).waiters().push(t) && sleep_effect(
                *old(k),
                *final(k),
                t,
                Status::Sleep,
            ),
    {
        if self.value == 0 {
            let _ = k.sleep(t as usize, Status::Sleep);
            self.queue.push_back(t);
            SemaphoreWaitResult::Enqueued
        } else {
            self.value = self.value - 1;
            SemaphoreWaitResult::Acquired
        }
    }

    /// Wakes the first waiter and reschedules; with no waiter, adds a unit
    /// (a count at its maximum stays there). Returns the woken thread.
    pub fn signal(&mut self, k: &mut Kernel) -> (r: Option<Tid>)
        requires
            old(k).wf(),
        ensures
            final(k).wf(),
            old(self).waiters().len() == 0 ==> r is None && *final(k) == *old(k) && final(self).waiters().len()
                == 0 && final(self).value_spec() == if old(self).value_spec() < usize::MAX {
                old(self).value_spec() + 1
            } else {
                old(self).value_spec()
            },
            old(self).waiters().len() > 0 ==> r == Some(old(self).waiters()[0]) && final(self).waiters()
                == old(self).waiters().drop_first() && final(self).value_spec() == old(self).value_spec(),
            old(self).waiters().len() > 0 && old(k).thread(old(self).waiters()[0] as int) is Some ==> {
                let w = old(self).waiters()[0];
                final(k).threads_view() == old(k).threads_view().update(
                    w - 1,
                    Some(crate::thread::Thread { status: Status::Runnable, ..old(k).thread(w as int)->0 }),
                )
            },
    {
        if self.queue.len() == 0 {
            if self.value < usize::MAX {
                self.value = self.value + 1;
            }
            return None;
        }
        let t = match self.queue.pop_front() {
            Some(t) => t,
            None => { return None; },
        };
        let _ = k.wake(t as usize);
        k.schedule();
        Some(t)
    }

    /// Resets the count and hands out the first waiter, if any, rescheduling
    /// when there is one; the caller wakes it.
    pub fn try_signal(&mut self, k: &mut Kernel) -> (r: Option<Tid>)
        requires
            old(k).wf(),
        ensures
            final(k).wf(),
            final(self).value_spec() == 0,
            old(self).waiters().len() == 0 ==> r is None && *final(k) == *old(k) && final(self).waiters().len() == 0,
            old(self).waiters().len() > 0 ==> r == Some(old(self).waiters()[0]) && final(self).waiters()
                == old(self).waiters().drop_first() && schedule_effect(*old(k), *final(k)),
    {
        self.value = 0;
        if self.queue.len() == 0 {
            return None;
        }
        let t = match self.queue.pop_front() {
            Some(t) => t,
            None => { return None; },
        };
        k.schedule();
        Some(t)
    }
}

} // verus!
