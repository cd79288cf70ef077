use vstd::prelude::*;
use crate::abi::{Asid, Tid};
use crate::context::ContextFrame;

verus! {

/// Where a thread runs: in an address space, or in the kernel.
#[derive(Clone, Copy, Debug, PartialEq, Eq, Structural)]
pub enum Type {
    User(Asid),
    Kernel,
}

/// Scheduling state of a thread.
#[derive(Clone, Copy, Debug, PartialEq, Eq, Structural)]
pub enum Status {
    /// May be picked by the scheduler.
    Runnable,
    /// Freshly created, or parked after a fault; waits for a wake-up.
    NotRunnable,
    /// Blocked in `itc_receive` until a caller delivers a request.
    WaitForRequest,
    /// Blocked in `itc_call` until its peer replies.
    WaitForReply,
    /// Put to sleep explicitly.
    Sleep,
    /// The per-core idle thread.
    Idle,
}

/// Failure of a thread-table operation.
#[derive(Clone, Copy, Debug, PartialEq, Eq, Structural)]
pub enum Error {
    ThreadNotFoundError,
}

/// One entry of the thread table.
#[derive(Clone, Copy, Debug)]
pub struct Thread {
    pub tid: Tid,
    pub parent: Option<Tid>,
    pub kind: Type,
    pub status: Status,
    pub context: ContextFrame,
    /// The thread this one is rendezvousing with, or the only sender it accepts.
    pub peer: Option<Tid>,
}

/// `t` accepts a request from `sender`: it waits in `itc_receive` and its
/// peer filter is unset or names `sender`.
pub open spec fn accepts(t: Thread, sender: Tid) -> bool {
    &&& t.status == Status::WaitForRequest
    &&& match t.peer {
        None => true,
        Some(p) => p == sender,
    }
}

impl Thread {
    pub fn tid(&self) -> (r: Tid)
        ensures
            r == self.tid,
    {
        self.tid
    }

    /// Whether `tid` is this thread's parent.
    pub fn is_child_of(&self, tid: Tid) -> (r: bool)
        ensures
            r == (self.parent == Some(tid)),
    {
        match self.parent {
            None => false,
            Some(p) => p == tid,
        }
    }

    pub fn status(&self) -> (r: Status)
        ensures
            r == self.status,
    {
        self.status
    }

    pub fn runnable(&self) -> (r: bool)
        ensures
            r == (self.status == Status::Runnable),
    {
        self.status == Status::Runnable
    }

    /// The address space of a user thread; `None` for a kernel thread.
    pub fn address_space(&self) -> (r: Option<Asid>)
        ensures
            r == match self.kind {
                Type::User(a) => Some(a),
                Type::Kernel => None,
            },
    {
        match self.kind {
            Type::User(a) => Some(a),
            Type::Kernel => None,
        }
    }

    pub fn context(&self) -> (r: ContextFrame)
        ensures
            r == self.context,
    {
        self.context
    }

    pub fn peer(&self) -> (r: Option<Tid>)
        ensures
            r == self.peer,
    {
        self.peer
    }

    /// Sets the status in this record only. A live thread's status changes
    /// through `Kernel::set_status`, which also keeps the ready queue in
    /// step.
    pub fn set_status(&mut self, status: Status)
        ensures
            *final(self) == (Thread { status, ..*old(self) }),
    {
        self.status = status;
    }

    pub fn set_context(&mut self, ctx: ContextFrame)
        ensures
            *final(self) == (Thread { context: ctx, ..*old(self) }),
    {
        self.context = ctx;
    }

    /// Records the thread this one rendezvouses with.
    pub fn set_peer(&mut self, sender: Tid)
        ensures
            *final(self) == (Thread { peer: Some(sender), ..*old(self) }),
    {
        self.peer = Some(sender);
    }

    pub fn clear_peer(&mut self)
        ensures
            *final(self) == (Thread { peer: None, ..*old(self) }),
    {
        self.peer = None;
    }

    /// Whether a request from `sender` would be taken now.
    pub fn receivable(&self, sender: Tid) -> (r: bool)
        ensures
            r == accepts(*self, sender),
    {
        (match self.peer {
            Some(p) => p == sender,
            None => true,
        }) && self.status == Status::WaitForRequest
    }
}

} // verus!
