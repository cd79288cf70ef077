use vstd::prelude::*;
use crate::abi::{
    ErrorCode, SyscallOut, SyscallResult, Tid, Asid, ERROR_DENIED, ERROR_HOLD_ON, ERROR_INVARG, ERROR_NOMEM,
    SYSCALL_COUNT, SYS_ADDRESS_SPACE_ALLOC, SYS_ADDRESS_SPACE_DESTROY, SYS_EVENT_HANDLER, SYS_GET_ASID,
    SYS_GET_TID, SYS_IPC_CAN_SEND, SYS_ITC_CALL, SYS_ITC_RECV, SYS_ITC_REPLY, SYS_ITC_SEND, SYS_MEM_ALLOC,
    SYS_MEM_MAP, SYS_MEM_UNMAP, SYS_NULL, SYS_PUTC, SYS_SERVER_REGISTER, SYS_SERVER_TID, SYS_THREAD_ALLOC,
    SYS_THREAD_DESTROY, SYS_THREAD_SET_STATUS, SYS_THREAD_YIELD, THREAD_STATUS_NOT_RUNNABLE,
    THREAD_STATUS_RUNNABLE,
};
use crate::context::{holds_result, ContextFrame, INSTRUCTION_SIZE};
use crate::kernel::{
    address_space_destroy_post, console_put_post, mem_alloc_post, mem_map_post, mem_unmap_post,
    server_register_post, destroy_effect, call_effect, same_memory, schedule_effect, send_effect, sleep_effect, EventHandler, Kernel,
};
use crate::thread::{Status, Thread, Type};

verus! {

/// `get_tid`: the caller's own id.
pub fn get_tid(caller: Tid) -> (r: SyscallResult)
    ensures
        r == Ok::<SyscallOut, ErrorCode>(SyscallOut::Single(caller as usize)),
{
    Ok(SyscallOut::Single(caller as usize))
}

/// `thread_yield`: gives the core to the next ready thread.
pub fn thread_yield(k: &mut Kernel) -> (r: SyscallResult)
    requires
        old(k).wf(),
    ensures
        final(k).wf(),
        schedule_effect(*old(k), *final(k)),
        r == Ok::<SyscallOut, ErrorCode>(SyscallOut::Unit),
{
    k.schedule();
    Ok(SyscallOut::Unit)
}

/// `get_asid`: the address space of thread `tid` (0: the caller).
pub fn get_asid(k: &Kernel, caller: Tid, tid: usize) -> (r: SyscallResult)
    requires
        k.wf(),
    ensures
        get_asid_post(*k, *k, caller, tid, r),
{
    let t = if tid == 0 { caller as usize } else { tid };
    match k.lookup(t) {
        Some(th) => match th.address_space() {
            Some(a) => Ok(SyscallOut::Single(a as usize)),
            None => Err(ERROR_INVARG),
        },
        None => Err(ERROR_INVARG),
    }
}

/// `thread_alloc`: a new thread of the caller in address space `asid`
/// (0: the caller's), not yet runnable.
pub fn thread_alloc(k: &mut Kernel, caller: Tid, asid: usize, entry: usize, sp: usize, arg: usize) -> (r:
    SyscallResult)
    requires
        old(k).wf(),
    ensures
        final(k).wf(),
        thread_alloc_post(*old(k), *final(k), caller, asid, entry, sp, arg, r),
{
    let a = match k.resolve_public(caller, asid) {
        None => { return Err(ERROR_INVARG); },
        Some(a) => a,
    };
    match k.new_user(entry, sp, arg, a, Some(caller)) {
        Some(t) => Ok(SyscallOut::Single(t as usize)),
        None => Err(ERROR_NOMEM),
    }
}

/// `thread_destroy`: ends thread `tid` (0: the caller). Only the caller
/// itself or the thread's parent may do so.
pub fn thread_destroy(k: &mut Kernel, caller: Tid, tid: usize) -> (r: SyscallResult)
    requires
        old(k).wf(),
        old(k).thread(caller as int) is Some,
    ensures
        final(k).wf(),
        thread_destroy_post(*old(k), *final(k), caller, tid, r),
{
    proof { k.lemma_wf(); }
    if tid == 0 {
        let _ = k.destroy(caller as usize);
        let ghost k1 = *k;
        k.schedule();
        assert(destroy_effect(*old(k), k1, caller) && schedule_effect(k1, *k));
        return Ok(SyscallOut::Unit);
    }
    match k.lookup(tid) {
        None => Err(ERROR_INVARG),
        Some(t) => {
            if t.is_child_of(caller) {
                let _ = k.destroy(tid);
                Ok(SyscallOut::Unit)
            } else {
                Err(ERROR_DENIED)
            }
        },
    }
}

/// `thread_set_status`: 1 makes thread `tid` runnable, 2 puts it to sleep.
pub fn thread_set_status(k: &mut Kernel, tid: usize, status: usize) -> (r: SyscallResult)
    requires
        old(k).wf(),
    ensures
        final(k).wf(),
        thread_set_status_post(*old(k), *final(k), tid, status, r),
{
    if status != THREAD_STATUS_RUNNABLE && status != THREAD_STATUS_NOT_RUNNABLE {
        return Err(ERROR_INVARG);
    }
    if k.lookup(tid).is_none() {
        return Err(ERROR_INVARG);
    }
    proof { k.lemma_wf(); }
    if status == THREAD_STATUS_RUNNABLE {
        let ghost k0 = *k;
        let _ = k.wake(tid);
        proof {
            if !(k0.running_view() == Some(tid as Tid) || k0.ready_view().contains(tid as Tid)) {
                assert(k.ready_view()[k.ready_view().len() - 1] == tid as Tid);
            }
        }
    } else {
        let _ = k.sleep(tid, Status::Sleep);
    }
    Ok(SyscallOut::Unit)
}

/// `yield_to`: hands the core to thread `tid` if it is ready.
pub fn yield_to(k: &mut Kernel, tid: usize) -> (r: SyscallResult)
    requires
        old(k).wf(),
    ensures
        final(k).wf(),
        old(k).thread(tid as int) is None ==> r == Err::<SyscallOut, ErrorCode>(ERROR_INVARG) && *final(k) == *old(k),
        old(k).thread(tid as int) is Some ==> r == Ok::<SyscallOut, ErrorCode>(SyscallOut::Unit),
        old(k).thread(tid as int) is Some && old(k).ready_view().contains(tid as Tid) ==> final(k).running_view()
            == Some(tid as Tid),
        same_memory(*old(k), *final(k)),
        final(k).threads_view() == old(k).threads_view(),
        !(old(k).thread(tid as int) is Some && old(k).ready_view().contains(tid as Tid)) ==> *final(k) == *old(k),
{
    match k.lookup(tid) {
        None => Err(ERROR_INVARG),
        Some(_) => {
            k.switch_to(tid as Tid);
            Ok(SyscallOut::Unit)
        },
    }
}

/// `address_space_alloc`: a new address space with a main thread that is a
/// copy of the caller, not yet runnable, which will see `(0, 0, 0, 0, 0)`
/// as its return. The caller gets `(asid, main_tid, 0, 0, 0)`.
pub fn address_space_alloc(k: &mut Kernel, caller: Tid) -> (r: SyscallResult)
    requires
        old(k).wf(),
        old(k).thread(caller as int) is Some,
    ensures
        final(k).wf(),
        address_space_alloc_post(*old(k), *final(k), caller, r),
{
    if !k.has_free_tid() {
        return Err(ERROR_NOMEM);
    }
    let a = match k.address_space_alloc() {
        Err(e) => { return Err(e); },
        Ok(a) => a,
    };
    let ghost k1 = *k;
    assert(k.thread(caller as int) == old(k).thread(caller as int));
    proof { k.lemma_wf(); }
    let me = k.lookup(caller as usize).unwrap();
    assert(k.threads_view() == old(k).threads_view());
    let ghost t0 = choose|t: int| 1 <= t <= old(k).threads_view().len() && old(k).thread(t) is None;
    assert(k.thread(t0) is None);
    let t = match k.new_user(me.context.pc, me.context.sp, 0, a, Some(caller)) {
        None => {
            assert(false);
            return Err(ERROR_NOMEM);
        },
        Some(t) => t,
    };
    let ghost k2 = *k;
    let mut ctx = me.context;
    ctx.set_syscall_result(&Ok(SyscallOut::Pentad(0, 0, 0, 0, 0)));
    k.set_context(t, ctx);
    assert(k.space(a as int) == k1.space(a as int));
    assert forall|x: int| x != t implies #[trigger] k.thread(x) == old(k).thread(x) by {
        assert(k2.thread(x) == k1.thread(x));
    }
    assert(k.frames_view() == k1.frames_view());
    assert forall|q: int| old(k).frames_view().is_frame(q) && old(k).frames_view().refs()[old(k).frames_view().index_of(q)] != 0
        implies #[trigger] k.frames_view().frame_bytes(q) == old(k).frames_view().frame_bytes(q) by {
        assert(k1.frames_view().frame_bytes(q) == old(k).frames_view().frame_bytes(q));
    }
    assert forall|f: int| 0 <= f < old(k).frames_view().refs().len() && old(k).frames_view().refs()[f] != 0
        implies #[trigger] k.frames_view().refs()[f] == old(k).frames_view().refs()[f] by {
        assert(k1.frames_view().refs()[f] == old(k).frames_view().refs()[f]);
    }
    assert forall|x: int| x != a implies #[trigger] k.space(x) == old(k).space(x) by {
        assert(k1.space(x) == old(k).space(x));
        assert(k.space(x) == k1.space(x));
    }
    Ok(SyscallOut::Pentad(a as usize, t as usize, 0, 0, 0))
}

/// `event_handler`: runs a new thread at `entry` with stack `sp` in `asid`
/// whenever interrupt `irq` fires (line 0: a page fault of that space).
pub fn event_handler(k: &mut Kernel, caller: Tid, asid: usize, entry: usize, sp: usize, irq: usize) -> (r:
    SyscallResult)
    requires
        old(k).wf(),
    ensures
        final(k).wf(),
        event_handler_post(*old(k), *final(k), caller, asid, entry, sp, irq, r),
{
    match k.resolve_public(caller, asid) {
        None => Err(ERROR_INVARG),
        Some(a) => {
            k.register_handler(EventHandler { irq, asid: a, entry, sp });
            Ok(SyscallOut::Unit)
        },
    }
}

/// `server_tid`: the thread registered as server `name`; `ERROR_HOLD_ON`
/// until one registers.
pub fn server_tid(k: &Kernel, name: usize) -> (r: SyscallResult)
    ensures
        server_tid_post(*k, *k, name, r),
{
    match k.server_lookup(name) {
        Some(t) => Ok(SyscallOut::Single(t as usize)),
        None => Err(ERROR_HOLD_ON),
    }
}

/// `itc_receive`: the caller waits for a request.
pub fn itc_receive(k: &mut Kernel, caller: Tid) -> (r: SyscallResult)
    requires
        old(k).wf(),
        old(k).thread(caller as int) is Some,
    ensures
        final(k).wf(),
        r == Ok::<SyscallOut, ErrorCode>(SyscallOut::Unit),
        sleep_effect(*old(k), *final(k), caller, Status::WaitForRequest),
{
    k.itc_receive(caller)
}

/// `itc_send`: replies `(a, b, c, d)` to `tid`, which must wait for a reply
/// from the caller.
pub fn itc_send(k: &mut Kernel, caller: Tid, tid: usize, a: usize, b: usize, c: usize, d: usize) -> (r:
    SyscallResult)
    requires
        old(k).wf(),
        old(k).thread(caller as int) is Some,
    ensures
        final(k).wf(),
        send_effect(*old(k), *final(k), caller, tid, a, b, c, d, r),
{
    k.itc_send(caller, tid, a, b, c, d)
}

/// `itc_call`: hands the request `(a, b, c, d)` to `tid` if it waits for
/// one from the caller, and blocks the caller until the reply; otherwise
/// `ERROR_HOLD_ON`.
pub fn itc_call(k: &mut Kernel, caller: Tid, tid: usize, a: usize, b: usize, c: usize, d: usize) -> (r:
    SyscallResult)
    requires
        old(k).wf(),
        old(k).thread(caller as int) is Some,
    ensures
        final(k).wf(),
        call_effect(*old(k), *final(k), caller, tid, a, b, c, d, r),
{
    k.itc_call(caller, tid, a, b, c, d)
}

/// Runs syscall `num` for `caller` with arguments `a`.
pub fn dispatch(k: &mut Kernel, caller: Tid, num: usize, a: [usize; 6]) -> (r: SyscallResult)
    requires
        old(k).wf(),
        old(k).thread(caller as int) is Some,
    ensures
        final(k).wf(),
        dispatch_post(*old(k), *final(k), caller, num, a@, r),
{
    if num == SYS_NULL {
        Ok(SyscallOut::Unit)
    } else if num == SYS_PUTC {
        k.console_put(a[0] as u8);
        Ok(SyscallOut::Unit)
    } else if num == SYS_GET_ASID {
        get_asid(k, caller, a[0])
    } else if num == SYS_GET_TID {
        get_tid(caller)
    } else if num == SYS_THREAD_YIELD {
        thread_yield(k)
    } else if num == SYS_THREAD_DESTROY {
        thread_destroy(k, caller, a[0])
    } else if num == SYS_EVENT_HANDLER {
        event_handler(k, caller, a[0], a[1], a[2], a[3])
    } else if num == SYS_MEM_ALLOC {
        k.mem_alloc(caller, a[0], a[1], a[2])
    } else if num == SYS_MEM_MAP {
        k.mem_map(caller, a[0], a[1], a[2], a[3], a[4])
    } else if num == SYS_MEM_UNMAP {
        k.mem_unmap(caller, a[0], a[1])
    } else if num == SYS_ADDRESS_SPACE_ALLOC {
        address_space_alloc(k, caller)
    } else if num == SYS_THREAD_ALLOC {
        thread_alloc(k, caller, a[0], a[1], a[2], a[3])
    } else if num == SYS_THREAD_SET_STATUS {
        thread_set_status(k, a[0], a[1])
    } else if num == SYS_ADDRESS_SPACE_DESTROY {
        proof { k.lemma_wf(); }
        match k.resolve_public(caller, a[0]) {
            None => Err(ERROR_INVARG),
            Some(s) => match k.address_space_destroy(s as usize) {
                Ok(()) => Ok(SyscallOut::Unit),
                Err(e) => {
                    assert(false);
                    Err(e)
                },
            },
        }
    } else if num == SYS_ITC_RECV {
        itc_receive(k, caller)
    } else if num == SYS_ITC_SEND {
        itc_send(k, caller, a[0], a[1], a[2], a[3], a[4])
    } else if num == SYS_ITC_CALL {
        itc_call(k, caller, a[0], a[1], a[2], a[3], a[4])
    } else if num == SYS_SERVER_REGISTER {
        k.server_register(a[0], caller);
        Ok(SyscallOut::Unit)
    } else if num == SYS_SERVER_TID {
        server_tid(k, a[0])
    } else {
        Err(ERROR_INVARG)
    }
}

/// What `thread_alloc` does.
pub open spec fn thread_alloc_post(k0: Kernel, k1: Kernel, caller: Tid, asid: usize, entry: usize, sp: usize, arg: usize, r: SyscallResult) -> bool {
    &&& match k0.resolve_spec(caller, asid) {
                None => r == Err::<SyscallOut, ErrorCode>(ERROR_INVARG) && k1 == k0,
                Some(a) => match r {
                    Ok(SyscallOut::Single(t)) => {
                        &&& k0.lowest_free_tid(t as int)
                        &&& k1.thread(t as int) matches Some(th) && th.parent == Some(caller) && th.kind
                            == Type::User(a) && th.status == Status::NotRunnable && th.context.pc == entry
                            && th.context.sp == sp && th.context.gpr@[0] == arg
                        &&& forall|x: int| x != t ==> #[trigger] k1.thread(x) == k0.thread(x)
                    },
                    Err(e) => e == ERROR_NOMEM && k1 == k0 && forall|x: int|
                        1 <= x <= k0.threads_view().len() ==> k0.thread(x) is Some,
                    _ => false,
                },
            }
}

/// What `thread_destroy` does.
pub open spec fn thread_destroy_post(k0: Kernel, k1: Kernel, caller: Tid, tid: usize, r: SyscallResult) -> bool {
    &&& ({
                let t = if tid == 0 { caller as int } else { tid as int };
                match k0.thread(t) {
                    None => r == Err::<SyscallOut, ErrorCode>(ERROR_INVARG) && k1 == k0,
                    Some(th) => if tid == 0 {
                        &&& r == Ok::<SyscallOut, ErrorCode>(SyscallOut::Unit)
                        &&& exists|mid: Kernel| #[trigger] destroy_effect(k0, mid, caller) && schedule_effect(mid, k1)
                    } else if th.parent == Some(caller) {
                        &&& r == Ok::<SyscallOut, ErrorCode>(SyscallOut::Unit)
                        &&& destroy_effect(k0, k1, tid as Tid)
                    } else {
                        r == Err::<SyscallOut, ErrorCode>(ERROR_DENIED) && k1 == k0
                    },
                }
            })
}

/// What `thread_set_status` does.
pub open spec fn thread_set_status_post(k0: Kernel, k1: Kernel, tid: usize, status: usize, r: SyscallResult) -> bool {
    &&& if status != THREAD_STATUS_RUNNABLE && status != THREAD_STATUS_NOT_RUNNABLE
                || k0.thread(tid as int) is None {
                r == Err::<SyscallOut, ErrorCode>(ERROR_INVARG) && k1 == k0
            } else {
                &&& r == Ok::<SyscallOut, ErrorCode>(SyscallOut::Unit)
                &&& k1.thread(tid as int) == Some(Thread { status: if status == THREAD_STATUS_RUNNABLE {
                    Status::Runnable
                } else {
                    Status::Sleep
                }, ..k0.thread(tid as int)->0 })
                &&& same_memory(k0, k1)
                &&& forall|x: int| x != tid ==> #[trigger] k1.thread(x) == k0.thread(x)
                &&& k1.running_view() == k0.running_view()
                &&& status == THREAD_STATUS_RUNNABLE ==> (k1.ready_view().contains(tid as Tid)
                    || k1.running_view() == Some(tid as Tid))
                &&& status != THREAD_STATUS_RUNNABLE ==> !k1.ready_view().contains(tid as Tid)
            }
}

/// What `address_space_alloc` does.
pub open spec fn address_space_alloc_post(k0: Kernel, k1: Kernel, caller: Tid, r: SyscallResult) -> bool {
    &&& r is Err <==> ((forall|a: int| 1 <= a <= k0.spaces_view().len() ==> k0.space(a) is Some)
                || k0.frames_view().free_spec() == 0
                || (forall|t: int| 1 <= t <= k0.threads_view().len() ==> k0.thread(t) is Some))
    &&& r is Err ==> k1 == k0
    &&& match r {
                Ok(SyscallOut::Pentad(a, t, x, y, z)) => {
                    &&& x == 0 && y == 0 && z == 0
                    &&& k0.lowest_free_asid(a as int)
                    &&& k1.space(a as int) is Some
                    &&& k1.thread(t as int) matches Some(th) && {
                        &&& th.kind == Type::User(a as Asid)
                        &&& th.parent == Some(caller)
                        &&& th.status == Status::NotRunnable
                        &&& holds_result(
                            k0.thread(caller as int)->0.context,
                            th.context,
                            Ok(SyscallOut::Pentad(0, 0, 0, 0, 0)),
                        )
                    }
                    &&& k0.thread(t as int) is None
                    &&& k1.pages_view() == k0.pages_view()
                    &&& k1.frames_view().base_spec() == k0.frames_view().base_spec()
                    &&& k1.frames_view().refs().len() == k0.frames_view().refs().len()
                    &&& forall|f: int| 0 <= f < k0.frames_view().refs().len() && k0.frames_view().refs()[f] != 0
                        ==> #[trigger] k1.frames_view().refs()[f] == k0.frames_view().refs()[f]
                    &&& forall|q: int| k0.frames_view().is_frame(q) && k0.frames_view().refs()[k0.frames_view().index_of(q)] != 0
                        ==> #[trigger] k1.frames_view().frame_bytes(q) == k0.frames_view().frame_bytes(q)
                    &&& k1.spaces_view().len() == k0.spaces_view().len()
                    &&& forall|x: int| x != a ==> #[trigger] k1.space(x) == k0.space(x)
                    &&& forall|x: int| x != t ==> #[trigger] k1.thread(x) == k0.thread(x)
                    &&& k1.ready_view() == k0.ready_view()
                    &&& k1.running_view() == k0.running_view()
                },
                Err(e) => e == ERROR_NOMEM,
                _ => false,
            }
}

/// What `event_handler` does.
pub open spec fn event_handler_post(k0: Kernel, k1: Kernel, caller: Tid, asid: usize, entry: usize, sp: usize, irq: usize, r: SyscallResult) -> bool {
    &&& match k0.resolve_spec(caller, asid) {
                None => r == Err::<SyscallOut, ErrorCode>(ERROR_INVARG) && k1 == k0,
                Some(a) => r == Ok::<SyscallOut, ErrorCode>(SyscallOut::Unit) && k1.handlers_view().contains(
                    EventHandler { irq, asid: a, entry, sp },
                ),
            }
}

/// What `get_asid` does.
pub open spec fn get_asid_post(k0: Kernel, k1: Kernel, caller: Tid, tid: usize, r: SyscallResult) -> bool {
    &&& ({
                let t = if tid == 0 { caller as int } else { tid as int };
                match k0.thread(t) {
                    Some(th) => match th.kind {
                        Type::User(a) => r == Ok::<SyscallOut, ErrorCode>(SyscallOut::Single(a as usize)),
                        Type::Kernel => r == Err::<SyscallOut, ErrorCode>(ERROR_INVARG),
                    },
                    None => r == Err::<SyscallOut, ErrorCode>(ERROR_INVARG),
                }
            })
    &&& k1 == k0
}

/// What `server_tid` does.
pub open spec fn server_tid_post(k0: Kernel, k1: Kernel, name: usize, r: SyscallResult) -> bool {
    &&& match r {
                Ok(SyscallOut::Single(t)) => k0.servers_view().contains((name, t as Tid)) && t <= u16::MAX,
                Err(e) => e == ERROR_HOLD_ON && forall|i: int|
                    0 <= i < k0.servers_view().len() ==> (#[trigger] k0.servers_view()[i]).0 != name,
                _ => false,
            }
    &&& k1 == k0
}

/// What syscall `num` does for `caller` with arguments `a`: exactly what
/// its handler states.
pub open spec fn dispatch_post(k0: Kernel, k1: Kernel, caller: Tid, num: usize, a: Seq<usize>, r: SyscallResult) -> bool {
    if num == SYS_NULL {
        r == Ok::<SyscallOut, ErrorCode>(SyscallOut::Unit) && k1 == k0
    } else if num == SYS_PUTC {
        r == Ok::<SyscallOut, ErrorCode>(SyscallOut::Unit) && console_put_post(k0, k1, a[0] as u8, ())
    } else if num == SYS_GET_ASID {
        get_asid_post(k0, k1, caller, a[0], r)
    } else if num == SYS_GET_TID {
        r == Ok::<SyscallOut, ErrorCode>(SyscallOut::Single(caller as usize)) && k1 == k0
    } else if num == SYS_THREAD_YIELD {
        r == Ok::<SyscallOut, ErrorCode>(SyscallOut::Unit) && schedule_effect(k0, k1)
    } else if num == SYS_THREAD_DESTROY {
        thread_destroy_post(k0, k1, caller, a[0], r)
    } else if num == SYS_EVENT_HANDLER {
        event_handler_post(k0, k1, caller, a[0], a[1], a[2], a[3], r)
    } else if num == SYS_MEM_ALLOC {
        mem_alloc_post(k0, k1, caller, a[0], a[1], a[2], r)
    } else if num == SYS_MEM_MAP {
        mem_map_post(k0, k1, caller, a[0], a[1], a[2], a[3], a[4], r)
    } else if num == SYS_MEM_UNMAP {
        mem_unmap_post(k0, k1, caller, a[0], a[1], r)
    } else if num == SYS_ADDRESS_SPACE_ALLOC {
        address_space_alloc_post(k0, k1, caller, r)
    } else if num == SYS_THREAD_ALLOC {
        thread_alloc_post(k0, k1, caller, a[0], a[1], a[2], a[3], r)
    } else if num == SYS_THREAD_SET_STATUS {
        thread_set_status_post(k0, k1, a[0], a[1], r)
    } else if num == SYS_ADDRESS_SPACE_DESTROY {
        match k0.resolve_spec(caller, a[0]) {
            None => r == Err::<SyscallOut, ErrorCode>(ERROR_INVARG) && k1 == k0,
            Some(s) => r == Ok::<SyscallOut, ErrorCode>(SyscallOut::Unit) && address_space_destroy_post(
                k0,
                k1,
                s as usize,
                Ok(()),
            ),
        }
    } else if num == SYS_ITC_RECV {
        r == Ok::<SyscallOut, ErrorCode>(SyscallOut::Unit) && sleep_effect(k0, k1, caller, Status::WaitForRequest)
    } else if num == SYS_ITC_SEND {
        send_effect(k0, k1, caller, a[0], a[1], a[2], a[3], a[4], r)
    } else if num == SYS_ITC_CALL {
        call_effect(k0, k1, caller, a[0], a[1], a[2], a[3], a[4], r)
    } else if num == SYS_SERVER_REGISTER {
        r == Ok::<SyscallOut, ErrorCode>(SyscallOut::Unit) && server_register_post(k0, k1, a[0], caller, ())
    } else if num == SYS_SERVER_TID {
        server_tid_post(k0, k1, a[0], r)
    } else {
        r == Err::<SyscallOut, ErrorCode>(ERROR_INVARG) && k1 == k0
    }
}

/// `k1` is `k0` with the caller's pc moved past the trapping instruction.
pub open spec fn entered(k0: Kernel, k1: Kernel, caller: Tid) -> bool {
    let th = k0.thread(caller as int)->0;
    &&& same_memory(k0, k1)
    &&& k1.threads_view() == k0.threads_view().update(
        caller - 1,
        Some(Thread { context: ContextFrame { pc: th.context.pc.wrapping_add(INSTRUCTION_SIZE), ..th.context }, ..th }),
    )
    &&& k1.ready_view() == k0.ready_view()
    &&& k1.running_view() == k0.running_view()
}

/// `k1` is `k0` with `r` written into the caller's frame, unless the call
/// blocked the caller in a rendezvous or ended it.
pub open spec fn result_written(k0: Kernel, k1: Kernel, caller: Tid, num: usize, r: SyscallResult) -> bool {
    if !blocks_caller(num, r) && k0.thread(caller as int) is Some {
        let th = k0.thread(caller as int)->0;
        let c = k1.thread(caller as int)->0.context;
        &&& same_memory(k0, k1)
        &&& k1.threads_view() == k0.threads_view().update(caller - 1, Some(Thread { context: c, ..th }))
        &&& holds_result(th.context, c, r)
        &&& k1.ready_view() == k0.ready_view()
        &&& k1.running_view() == k0.running_view()
    } else {
        k1 == k0
    }
}

/// `k1` is `k0` after the core was given up by a thread that can no longer
/// run (or by an idle core); otherwise nothing changes.
pub open spec fn rescheduled(k0: Kernel, k1: Kernel) -> bool {
    if k0.running_view() is None || k0.thread(k0.running_view()->0 as int)->0.status != Status::Runnable {
        schedule_effect(k0, k1)
    } else {
        k1 == k0
    }
}

/// The steps of one syscall of `caller`, from `k0` to `k4`, with result `r`.
pub open spec fn syscall_steps(k0: Kernel, k1: Kernel, k2: Kernel, k3: Kernel, k4: Kernel, caller: Tid, r: SyscallResult) -> bool {
    let ctx = k0.thread(caller as int)->0.context;
    let num = ctx.gpr@[8];
    &&& entered(k0, k1, caller)
    &&& dispatch_post(k1, k2, caller, num, ctx.gpr@.subrange(0, 6), r)
    &&& result_written(k2, k3, caller, num, r)
    &&& rescheduled(k3, k4)
}

/// The call left its caller blocked in a rendezvous; the peer writes its
/// return later.
pub open spec fn blocks_caller(num: usize, r: SyscallResult) -> bool {
    num == SYS_ITC_RECV || (num == SYS_ITC_CALL && r is Ok)
}

/// Handles the syscall of the running thread: reads the number and
/// arguments from its saved frame, moves its pc past the trapping
/// instruction, runs the call and writes the result into its frame, unless
/// the call blocked it in a rendezvous or ended it. Afterwards a thread
/// that can no longer run gives up the core.
pub fn syscall(k: &mut Kernel) -> (r: Option<SyscallResult>)
    requires
        old(k).wf(),
    ensures
        final(k).wf(),
        old(k).running_view() is None ==> r is None && *final(k) == *old(k),
        old(k).running_view() matches Some(caller) ==> r is Some,
        old(k).running_view() matches Some(caller) ==> exists|k1: Kernel, k2: Kernel, k3: Kernel, r0: SyscallResult|
            r == Some(r0) && #[trigger] syscall_steps(*old(k), k1, k2, k3, *final(k), caller, r0),
        old(k).running_view() matches Some(caller) ==> ({
            let before = old(k).thread(caller as int)->0;
            before.status == Status::Runnable && before.context.gpr@[8] == SYS_NULL
                && before.context.pc + INSTRUCTION_SIZE <= usize::MAX ==> {
                &&& r == Some(Ok::<SyscallOut, ErrorCode>(SyscallOut::Unit))
                &&& final(k).running_view() == old(k).running_view()
                &&& final(k).ready_view() == old(k).ready_view()
                &&& same_memory(*old(k), *final(k))
                &&& final(k).thread(caller as int) matches Some(after) && {
                    &&& after.status == before.status
                    &&& after.peer == before.peer
                    &&& after.context.pc == before.context.pc + INSTRUCTION_SIZE
                    &&& holds_result(
                        ContextFrame { pc: after.context.pc, ..before.context },
                        after.context,
                        Ok(SyscallOut::Unit),
                    )
                }
                &&& forall|t: int| t != caller ==> #[trigger] final(k).thread(t) == old(k).thread(t)
            }
        }),
{
    let caller = match k.running_thread() {
        None => { return None; },
        Some(t) => t,
    };
    proof { k.lemma_wf(); }
    let me = k.lookup(caller as usize).unwrap();
    let mut ctx = me.context;
    let num = ctx.syscall_number();
    let args = [
        ctx.syscall_argument(0),
        ctx.syscall_argument(1),
        ctx.syscall_argument(2),
        ctx.syscall_argument(3),
        ctx.syscall_argument(4),
        ctx.syscall_argument(5),
    ];
    ctx.set_pc(ctx.get_pc().wrapping_add(INSTRUCTION_SIZE));
    k.set_context(caller, ctx);
    let ghost k1 = *k;
    assert(k.thread(caller as int) is Some);
    assert(args@ =~= me.context.gpr@.subrange(0, 6));
    let r = dispatch(k, caller, num, args);
    let ghost k2 = *k;
    proof { k.lemma_wf(); }
    if !blocks_caller_exec(num, &r) {
        match k.lookup(caller as usize) {
            Some(th) => {
                let mut c = th.context;
                c.set_syscall_result(&r);
                k.set_context(caller, c);
            },
            None => {},
        }
    }
    let ghost k3 = *k;
    proof { k.lemma_wf(); }
    match k.running_thread() {
        Some(t) => {
            let th = k.lookup(t as usize).unwrap();
            if !th.runnable() {
                k.schedule();
            }
        },
        None => {
            k.schedule();
        },
    }
    assert(entered(*old(k), k1, caller));
    assert(dispatch_post(k1, k2, caller, num, me.context.gpr@.subrange(0, 6), r));
    assert(result_written(k2, k3, caller, num, r));
    assert(rescheduled(k3, *k));
    assert(syscall_steps(*old(k), k1, k2, k3, *k, caller, r));
    Some(r)
}

fn blocks_caller_exec(num: usize, r: &SyscallResult) -> (b: bool)
    ensures
        b == blocks_caller(num, *r),
{
    num == SYS_ITC_RECV || (num == SYS_ITC_CALL && r.is_ok())
}

} // verus!
