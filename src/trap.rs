use vstd::prelude::*;
use crate::abi::{Asid, SyscallResult, Tid};
use crate::context::ContextFrame;
use crate::frame::PAGE_SIZE;
use crate::kernel::{cow_effect, destroy_effect, same_memory, schedule_effect, sleep_effect, Kernel};
use crate::syscall::syscall_steps;
use crate::syscall::syscall;
use crate::thread::{Status, Thread, Type};

verus! {

/// Exception class of a `svc` from AArch64 user mode.
pub const EC_SVC64: usize = 0x15;

/// Exception class of an instruction abort from a lower level.
pub const EC_INSTR_ABORT_LOWER: usize = 0x20;

/// Exception class of an instruction abort from the kernel.
pub const EC_INSTR_ABORT_CURRENT: usize = 0x21;

/// Exception class of a data abort from a lower level.
pub const EC_DATA_ABORT_LOWER: usize = 0x24;

/// Exception class of a data abort from the kernel.
pub const EC_DATA_ABORT_CURRENT: usize = 0x25;

/// Interrupt line of the core timer.
pub const INT_TIMER: usize = 27;

/// First interrupt line that devices share; lower lines are per core.
pub const FIRST_SHARED_IRQ: usize = 32;

/// Event line on which a thread's unresolved fault is reported to the
/// address space of its parent.
pub const FAULT_EVENT: usize = 0;

/// A trap, as the entry stub classified it.
#[derive(Clone, Copy, Debug, PartialEq, Eq, Structural)]
pub enum Trap {
    /// A syscall instruction.
    Syscall,
    /// An instruction or data abort at `addr`.
    Abort { addr: usize, write: bool },
    /// An interrupt; `None` when the controller reported no line.
    Irq(Option<usize>),
    /// An asynchronous system error.
    SError,
    /// Any other synchronous exception.
    Other,
}

/// How the core leaves the trap.
#[derive(Clone, Copy, Debug)]
pub enum TrapExit {
    /// Restore this frame: that of the thread that runs now.
    Resume(ContextFrame),
    /// No thread is ready: wait for the next interrupt.
    Idle,
    /// An unrecoverable condition in the kernel.
    Panic,
}

/// The trap that a synchronous AArch64 exception of class `ec` stands for.
pub open spec fn classify_spec(ec: usize, far: usize, write: bool) -> Trap {
    if ec == EC_SVC64 {
        Trap::Syscall
    } else if ec == EC_INSTR_ABORT_LOWER || ec == EC_INSTR_ABORT_CURRENT {
        Trap::Abort { addr: far, write: false }
    } else if ec == EC_DATA_ABORT_LOWER || ec == EC_DATA_ABORT_CURRENT {
        Trap::Abort { addr: far, write }
    } else {
        Trap::Other
    }
}

/// Classifies a synchronous AArch64 exception from its class, the fault
/// address and the write bit of the syndrome.
pub fn classify_aarch64(ec: usize, far: usize, write: bool) -> (r: Trap)
    ensures
        r == classify_spec(ec, far, write),
{
    if ec == EC_SVC64 {
        Trap::Syscall
    } else if ec == EC_INSTR_ABORT_LOWER || ec == EC_INSTR_ABORT_CURRENT {
        Trap::Abort { addr: far, write: false }
    } else if ec == EC_DATA_ABORT_LOWER || ec == EC_DATA_ABORT_CURRENT {
        Trap::Abort { addr: far, write }
    } else {
        Trap::Other
    }
}

/// A timer tick: a user thread (or an idle core) is preempted; a kernel
/// thread keeps the core until it yields.
pub fn timer_tick(k: &mut Kernel)
    requires
        old(k).wf(),
    ensures
        final(k).wf(),
        timer_post(*old(k), *final(k)),
{
    proof { k.lemma_wf(); }
    match k.running_thread() {
        Some(r) => {
            let th = k.lookup(r as usize).unwrap();
            if th.kind == Type::Kernel {
                return;
            }
        },
        None => {},
    }
    k.schedule();
}

/// Routes a device interrupt: a fresh runnable thread starts at the
/// registered handler of the line. Returns the new thread, or `None` when
/// no handler is registered, its space is gone, or no thread id is free.
pub fn interrupt(k: &mut Kernel, irq: usize) -> (r: Option<Tid>)
    requires
        old(k).wf(),
    ensures
        final(k).wf(),
        interrupt_post(*old(k), *final(k), irq, r),
        r is None ==> *final(k) == *old(k),
        r is None <==> ((forall|i: int| 0 <= i < old(k).handlers_view().len() ==> #[trigger] old(k).handlers_view()[i].irq != irq)
            || (exists|i: int| #![trigger old(k).handlers_view()[i]] first_handler(*old(k), irq, i) && (old(k).handlers_view()[i].asid == 0
                || old(k).space(old(k).handlers_view()[i].asid as int) is None))
            || (forall|t: int| 1 <= t <= old(k).threads_view().len() ==> old(k).thread(t) is Some)),
        r matches Some(t) ==> final(k).thread(t as int) matches Some(th) && th.status == Status::Runnable
            && th.context.gpr@[0] == irq && (exists|i: int| 0 <= i < old(k).handlers_view().len()
                && (#[trigger] old(k).handlers_view()[i]).irq == irq
                && th.kind == Type::User(old(k).handlers_view()[i].asid)
                && th.context.pc == old(k).handlers_view()[i].entry
                && th.context.sp == old(k).handlers_view()[i].sp),
{
    match k.handler_for(irq, None) {
        None => None,
        Some(h) => {
            assert(k.handlers_view().contains(h));
            let ghost i = choose|i: int| #![trigger k.handlers_view()[i]]
                0 <= i < k.handlers_view().len() && k.handlers_view()[i] == h && h.irq == irq
                && forall|j: int| 0 <= j < i ==> !(#[trigger] k.handlers_view()[j].irq == irq);
            proof {
                assert(k.handlers_view().contains(h));
                assert(first_handler(*k, irq, i));
                assert forall|x: int| #![trigger k.handlers_view()[x]] first_handler(*k, irq, x) implies x == i by {
                    if x < i {
                        assert(!(k.handlers_view()[x].irq == irq));
                    } else if x > i {
                        assert(!(k.handlers_view()[i].irq == irq));
                    }
                }
            }
            spawn_handler(k, h.irq, h.asid, h.entry, h.sp, irq)
        },
    }
}

/// `k1` is `k0` with a new runnable thread `t` queued, started at `entry`
/// with stack `sp` in `asid` and `arg` in its first register.
pub open spec fn spawned(k0: Kernel, k1: Kernel, t: Tid, asid: Asid, entry: usize, sp: usize, arg: usize) -> bool {
    &&& same_memory(k0, k1)
    &&& k0.thread(t as int) is None
    &&& k1.thread(t as int) matches Some(th) && th.status == Status::Runnable && th.kind == Type::User(asid)
        && th.context.pc == entry && th.context.sp == sp && th.context.gpr@[0] == arg && th.parent is None
    &&& forall|x: int| x != t ==> #[trigger] k1.thread(x) == k0.thread(x)
    &&& k1.ready_view() == k0.ready_view().push(t)
    &&& k1.running_view() == k0.running_view()
}

/// What a timer tick does: a user thread or an idle core is preempted; a
/// kernel thread keeps the core.
pub open spec fn timer_post(k0: Kernel, k1: Kernel) -> bool {
    if k0.running_view() matches Some(r) && k0.thread(r as int)->0.kind == Type::Kernel {
        k1 == k0
    } else {
        schedule_effect(k0, k1)
    }
}

/// What routing interrupt `irq` does: the first handler of the line gets a
/// new thread, unless there is none, its space is gone, or no id is free.
pub open spec fn interrupt_post(k0: Kernel, k1: Kernel, irq: usize, r: Option<Tid>) -> bool {
    &&& r is None ==> k1 == k0
    &&& r is None <==> ((forall|i: int| 0 <= i < k0.handlers_view().len() ==> #[trigger] k0.handlers_view()[i].irq != irq)
        || (exists|i: int| #![trigger k0.handlers_view()[i]] first_handler(k0, irq, i) && (k0.handlers_view()[i].asid == 0
            || k0.space(k0.handlers_view()[i].asid as int) is None))
        || (forall|t: int| 1 <= t <= k0.threads_view().len() ==> k0.thread(t) is Some))
    &&& r matches Some(t) ==> exists|i: int| #![trigger k0.handlers_view()[i]] first_handler(k0, irq, i) && spawned(
        k0,
        k1,
        t,
        k0.handlers_view()[i].asid,
        k0.handlers_view()[i].entry,
        k0.handlers_view()[i].sp,
        irq,
    )
}

/// The address space of `t`'s parent, when the parent is a live user thread.
pub open spec fn parent_space(k: Kernel, t: Tid) -> Option<Asid> {
    match k.thread(t as int)->0.parent {
        Some(p) => match k.thread(p as int) {
            Some(pt) => match pt.kind {
                Type::User(a) => Some(a),
                Type::Kernel => None,
            },
            None => None,
        },
        None => None,
    }
}

/// The steps after an unresolved fault of thread `t`: it is parked, the
/// fault-line handler of its parent's space (if the parent has one) is
/// started with `t` as its argument, and the core is given up.
pub open spec fn parked_steps(k0: Kernel, m1: Kernel, m2: Kernel, k1: Kernel, t: Tid) -> bool {
    &&& sleep_effect(k0, m1, t, Status::NotRunnable)
    &&& (m2 == m1 || (parent_space(k0, t) matches Some(a) && exists|h: Tid, i: int|
        #![trigger m1.handlers_view()[i], m2.thread(h as int)]
        0 <= i < m1.handlers_view().len() && m1.handlers_view()[i].irq == FAULT_EVENT && m1.handlers_view()[i].asid == a
        && spawned(m1, m2, h, a, m1.handlers_view()[i].entry, m1.handlers_view()[i].sp, t as usize)))
    &&& parent_space(k0, t) is None ==> m2 == m1
    &&& schedule_effect(m2, k1)
}

/// What a fault of the running thread at `addr` does: a write to a
/// copy-on-write page that can be split is resolved in place; any other
/// fault of a user thread parks it and reports it to its parent.
pub open spec fn fault_post(k0: Kernel, k1: Kernel, addr: usize, write: bool) -> bool {
    match k0.running_view() {
        None => k1 == k0,
        Some(t) => match k0.thread(t as int)->0.kind {
            Type::Kernel => k1 == k0,
            Type::User(a) => {
                let key = (a, (addr - addr % PAGE_SIZE) as usize);
                let p = k0.pages_view()@[key];
                if write && k0.pages_view()@.contains_key(key) && p.attr.copy_on_write && (
                k0.frames_view().refs()[k0.frames_view().index_of(p.pa as int)] <= 1
                    || k0.frames_view().free_spec() > 0) {
                    cow_effect(k0, k1, key)
                } else {
                    &&& !(write && k0.pages_view()@.contains_key(key) && p.attr.copy_on_write)
                        || k0.frames_view().free_spec() == 0
                    &&& exists|m1: Kernel, m2: Kernel| #[trigger] parked_steps(k0, m1, m2, k1, t)
                }
            },
        },
    }
}

/// What an SError of the running user thread does: the thread ends and the
/// core goes to the next one.
pub open spec fn serror_post(k0: Kernel, k1: Kernel) -> bool {
    match k0.running_view() {
        None => k1 == k0,
        Some(t) => exists|m: Kernel| #[trigger] destroy_effect(k0, m, t) && schedule_effect(m, k1),
    }
}

/// What the syscall path does from `k0` to `k1`.
pub open spec fn syscall_done(k0: Kernel, k1: Kernel) -> bool {
    match k0.running_view() {
        None => k1 == k0,
        Some(c) => exists|a: Kernel, b: Kernel, d: Kernel, r0: SyscallResult| #[trigger] syscall_steps(k0, a, b, d, k1, c, r0),
    }
}

/// `k1` is `k0` with the trap frame saved as the running thread's context,
/// when the trap came from user mode.
pub open spec fn saved(k0: Kernel, k1: Kernel, frame: ContextFrame, from_user: bool) -> bool {
    if from_user && k0.running_view() is Some {
        let t = k0.running_view()->0;
        &&& same_memory(k0, k1)
        &&& k1.threads_view() == k0.threads_view().update(t - 1, Some(Thread { context: frame, ..k0.thread(t as int)->0 }))
        &&& k1.ready_view() == k0.ready_view()
        &&& k1.running_view() == k0.running_view()
    } else {
        k1 == k0
    }
}

/// What a trap does once the frame is saved.
pub open spec fn trap_post(k0: Kernel, k1: Kernel, trap: Trap) -> bool {
    match trap {
        Trap::Syscall => syscall_done(k0, k1),
        Trap::Abort { addr, write } => fault_post(k0, k1, addr, write),
        Trap::Other => fault_post(k0, k1, 0, false),
        Trap::SError => serror_post(k0, k1),
        Trap::Irq(Some(i)) => if i == INT_TIMER {
            timer_post(k0, k1)
        } else {
            exists|r: Option<Tid>| #[trigger] interrupt_post(k0, k1, i, r)
        },
        Trap::Irq(None) => k1 == k0,
    }
}

/// `i` is the first handler registered for `irq`.
pub open spec fn first_handler(k: Kernel, irq: usize, i: int) -> bool {
    &&& 0 <= i < k.handlers_view().len()
    &&& k.handlers_view()[i].irq == irq
    &&& forall|j: int| 0 <= j < i ==> #[trigger] k.handlers_view()[j].irq != irq
}

/// Starts a runnable handler thread at `entry` with stack `sp` in `asid`,
/// with `arg` in its first register.
fn spawn_handler(k: &mut Kernel, line: usize, asid: Asid, entry: usize, sp: usize, arg: usize) -> (r: Option<Tid>)
    requires
        old(k).wf(),
        old(k).handlers_view().contains(crate::kernel::EventHandler { irq: line, asid, entry, sp }),
    ensures
        final(k).wf(),
        r is None ==> *final(k) == *old(k),
        r is None <==> (asid == 0 || old(k).space(asid as int) is None
            || (forall|t: int| 1 <= t <= old(k).threads_view().len() ==> old(k).thread(t) is Some)),
        r matches Some(t) ==> final(k).thread(t as int) matches Some(th) && th.status == Status::Runnable
            && th.context.gpr@[0] == arg && (exists|i: int| 0 <= i < old(k).handlers_view().len()
                && (#[trigger] old(k).handlers_view()[i]).irq == line
                && th.kind == Type::User(old(k).handlers_view()[i].asid)
                && th.context.pc == old(k).handlers_view()[i].entry
                && th.context.sp == old(k).handlers_view()[i].sp),
        r matches Some(t) ==> spawned(*old(k), *final(k), t, asid, entry, sp, arg),
{
    proof { k.lemma_wf(); }
    if k.resolve_public(0, asid as usize).is_none() || asid == 0 {
        return None;
    }
    let t = match k.new_user(entry, sp, arg, asid, None) {
        None => { return None; },
        Some(t) => t,
    };
    assert(!(forall|x: int| 1 <= x <= old(k).threads_view().len() ==> old(k).thread(x) is Some)) by {
        assert(old(k).lowest_free_tid(t as int));
    }
    proof {
        k.lemma_wf();
        if k.ready_view().contains(t) {
            k.lemma_queued_are_runnable(t);
        }
    }
    let ghost k1 = *k;
    let _ = k.wake(t as usize);
    proof {
        assert(k1.running_view() != Some(t));
        assert(!k1.ready_view().contains(t));
        assert(k.ready_view() == old(k).ready_view().push(t));
        assert forall|x: int| x != t implies #[trigger] k.thread(x) == old(k).thread(x) by {
            assert(k1.thread(x) == old(k).thread(x));
        }
        assert(same_memory(*old(k), *k));
        assert(old(k).thread(t as int) is None);
        let i = choose|i: int| 0 <= i < old(k).handlers_view().len() && old(k).handlers_view()[i]
            == crate::kernel::EventHandler { irq: line, asid, entry, sp };
        assert(old(k).handlers_view()[i].irq == line);
    }
    Some(t)
}

/// The frame to resume, or idle.
fn exit(k: &Kernel) -> (r: TrapExit)
    requires
        k.wf(),
    ensures
        match k.running_view() {
            Some(t) => r matches TrapExit::Resume(c) && c == k.thread(t as int)->0.context,
            None => r matches TrapExit::Idle,
        },
{
    proof { k.lemma_wf(); }
    match k.running_thread() {
        Some(t) => TrapExit::Resume(k.lookup(t as usize).unwrap().context),
        None => TrapExit::Idle,
    }
}

/// Handles one trap. A trap from user mode first saves `frame` as the
/// running thread's context. A syscall goes to the syscall layer; a user
/// abort to the copy-on-write handler, then to the space's fault handler,
/// parking the thread; a user SError ends the thread; an interrupt goes to
/// the timer or to the registered handler. Any abort or error taken in
/// kernel mode, and an interrupt on an unknown or per-core line, is fatal.
/// The trap leaves through the frame of whichever thread runs afterwards.
pub fn handle_trap(k: &mut Kernel, frame: ContextFrame, from_user: bool, trap: Trap) -> (r: TrapExit)
    requires
        old(k).wf(),
    ensures
        final(k).wf(),
        r is Panic <==> (match trap {
            Trap::Irq(None) => true,
            Trap::Irq(Some(i)) => i != INT_TIMER && i < FIRST_SHARED_IRQ,
            _ => !from_user,
        }),
        r is Panic ==> *final(k) == *old(k),
        !(r is Panic) ==> exists|k1: Kernel| #[trigger] saved(*old(k), k1, frame, from_user) && trap_post(k1, *final(k), trap),
        !(r is Panic) ==> match final(k).running_view() {
            Some(t) => r matches TrapExit::Resume(c) && c == final(k).thread(t as int)->0.context,
            None => r matches TrapExit::Idle,
        },
{
    match trap {
        Trap::Irq(None) => { return TrapExit::Panic; },
        Trap::Irq(Some(i)) => {
            if i != INT_TIMER && i < FIRST_SHARED_IRQ {
                return TrapExit::Panic;
            }
        },
        _ => {
            if !from_user {
                return TrapExit::Panic;
            }
        },
    }
    proof { k.lemma_wf(); }
    if from_user {
        match k.running_thread() {
            Some(t) => { k.set_context(t, frame); },
            None => {},
        }
    }
    let ghost k1 = *k;
    assert(saved(*old(k), k1, frame, from_user));
    match trap {
        Trap::Syscall => {
            let _ = syscall(k);
            proof {
                if let Some(c) = k1.running_view() {
                    let (a, b, d, r0) = choose|a: Kernel, b: Kernel, d: Kernel, r0: SyscallResult|
                        #[trigger] syscall_steps(k1, a, b, d, *k, c, r0);
                    assert(syscall_steps(k1, a, b, d, *k, c, r0));
                }
                assert(trap_post(k1, *k, trap));
            }
        },
        Trap::Abort { addr, write } => {
            user_fault(k, addr, write);
        },
        Trap::SError => {
            proof { k.lemma_wf(); }
            match k.running_thread() {
                Some(t) => {
                    let _ = k.destroy(t as usize);
                    let ghost m = *k;
                    k.schedule();
                    assert(destroy_effect(k1, m, t) && schedule_effect(m, *k));
                },
                None => {},
            }
        },
        Trap::Other => {
            user_fault(k, 0, false);
        },
        Trap::Irq(Some(i)) => {
            if i == INT_TIMER {
                timer_tick(k);
            } else {
                let r = interrupt(k, i);
                assert(interrupt_post(k1, *k, i, r));
            }
        },
        Trap::Irq(None) => {},
    }
    assert(trap_post(k1, *k, trap));
    exit(k)
}

/// A fault of the running user thread: resolved in place when it is a
/// copy-on-write write; otherwise the thread is parked and the space's
/// fault handler, if any, is started with the fault address.
fn user_fault(k: &mut Kernel, addr: usize, write: bool)
    requires
        old(k).wf(),
    ensures
        final(k).wf(),
        fault_post(*old(k), *final(k), addr, write),
{
    proof { k.lemma_wf(); }
    let t = match k.running_thread() {
        None => { return; },
        Some(t) => t,
    };
    let th = k.lookup(t as usize).unwrap();
    let asid = match th.kind {
        Type::User(a) => a,
        Type::Kernel => { return; },
    };
    if k.page_fault(asid, addr, write) {
        return;
    }
    let _ = k.sleep(t as usize, Status::NotRunnable);
    let ghost m1 = *k;
    proof { k.lemma_wf(); }
    let parent_as = match th.parent {
        Some(p) => match k.lookup(p as usize) {
            Some(pt) => pt.address_space(),
            None => None,
        },
        None => None,
    };
    assert(k.thread(t as int)->0.parent == old(k).thread(t as int)->0.parent);
    assert(th.parent matches Some(p) ==> k.thread(p as int) == old(k).thread(p as int) || p == t);
    match parent_as {
        Some(pa) => {
            match k.handler_for(FAULT_EVENT, Some(pa)) {
                Some(h) => {
                    let ghost i = choose|i: int| #![trigger k.handlers_view()[i]]
                        0 <= i < k.handlers_view().len() && k.handlers_view()[i] == h && h.irq == FAULT_EVENT && h.asid == pa;
                    assert(k.handlers_view().contains(h));
                    let r = spawn_handler(k, h.irq, h.asid, h.entry, h.sp, t as usize);
                    proof {
                        if let Some(x) = r {
                            assert(m1.handlers_view()[i].irq == FAULT_EVENT);
                            assert(k.thread(x as int) is Some);
                        }
                    }
                },
                None => {},
            }
        },
        None => {},
    }
    let ghost m2 = *k;
    k.schedule();
    assert(parked_steps(*old(k), m1, m2, *k, t));
}

} // verus!
