use vstd::prelude::*;
use crate::abi::{Asid, ErrorCode, SyscallOut, Tid, ERROR_HOLD_ON, ERROR_INVARG};
use crate::context::holds_result;
use crate::kernel::{
    address_space_destroy_post, call_effect, cow_effect, destroy_effect, drop_at, drop_list, leaves_of,
    space_alloc_post, drop_one, map_effect, new_thread_effect, unmap_effect, Kernel,
};
use crate::page_table::{attr_bits, Pte};
use crate::thread::{Status, Type};

verus! {

/// A new thread gets an id that no live thread has, and every other id
/// keeps its thread.
pub proof fn lemma_new_tid_is_fresh(
    k0: Kernel,
    k1: Kernel,
    r: Option<Tid>,
    pc: usize,
    sp: usize,
    arg: usize,
    kind: Type,
    parent: Option<Tid>,
)
    requires
        new_thread_effect(k0, k1, r, pc, sp, arg, kind, parent),
        r is Some,
    ensures
        !k0.live_tids().contains(r->0 as int),
        k1.live_tids() == k0.live_tids().insert(r->0 as int),
{
    let t = r->0 as int;
    assert(k1.live_tids() =~= k0.live_tids().insert(t)) by {
        assert forall|x: int| k1.live_tids().contains(x) <==> k0.live_tids().insert(t).contains(x) by {
            if x != t {
                assert(k1.thread(x) == k0.thread(x));
            }
        }
    }
}

proof fn lemma_lowest_free_tid_exists(k: Kernel, n: int)
    requires
        1 <= n <= k.threads_view().len(),
        k.thread(n) is None,
    ensures
        exists|t: int| 1 <= t <= n && #[trigger] k.lowest_free_tid(t),
    decreases n,
{
    if forall|u: int| 1 <= u < n ==> k.thread(u) is Some {
        assert(k.lowest_free_tid(n));
    } else {
        let u = choose|u: int| 1 <= u < n && k.thread(u) is None;
        lemma_lowest_free_tid_exists(k, u);
        let t = choose|t: int| 1 <= t <= u && #[trigger] k.lowest_free_tid(t);
        assert(k.lowest_free_tid(t));
    }
}

/// A destroyed thread's id is free again, and the next thread created gets
/// it or a lower free one.
pub proof fn lemma_destroyed_tid_is_reusable(k0: Kernel, k1: Kernel, tid: Tid)
    requires
        destroy_effect(k0, k1, tid),
    ensures
        !k1.live_tids().contains(tid as int),
        exists|t: int| 1 <= t <= tid && #[trigger] k1.lowest_free_tid(t),
{
    assert(1 <= tid <= k0.threads_view().len());
    lemma_lowest_free_tid_exists(k1, tid as int);
}

proof fn lemma_lowest_free_asid_exists(k: Kernel, n: int)
    requires
        1 <= n <= k.spaces_view().len(),
        k.space(n) is None,
    ensures
        exists|a: int| 1 <= a <= n && #[trigger] k.lowest_free_asid(a),
    decreases n,
{
    if forall|u: int| 1 <= u < n ==> k.space(u) is Some {
        assert(k.lowest_free_asid(n));
    } else {
        let u = choose|u: int| 1 <= u < n && k.space(u) is None;
        lemma_lowest_free_asid_exists(k, u);
        let a = choose|a: int| 1 <= a <= u && #[trigger] k.lowest_free_asid(a);
        assert(k.lowest_free_asid(a));
    }
}

/// A destroyed address space's id is free again, and the next allocation
/// gets it or a lower free one.
pub proof fn lemma_destroyed_asid_is_reusable(k0: Kernel, k1: Kernel, asid: Asid)
    requires
        k0.space(asid as int) is Some,
        k1.space(asid as int) is None,
        k1.spaces_view().len() == k0.spaces_view().len(),
    ensures
        !k1.live_asids().contains(asid as int),
        exists|a: int| 1 <= a <= asid && #[trigger] k1.lowest_free_asid(a),
{
    lemma_lowest_free_asid_exists(k1, asid as int);
}

/// An address space allocated and destroyed again leaves the live
/// address-space ids, every reference count and so the free frame count as
/// they were; its id is the lowest free one again.
pub proof fn lemma_space_round_trip(k0: Kernel, k1: Kernel, k2: Kernel, a: Asid)
    requires
        k0.wf(),
        space_alloc_post(k0, k1, Ok(a)),
        address_space_destroy_post(k1, k2, a as usize, Ok(())),
    ensures
        k2.live_asids() == k0.live_asids(),
        k2.frames_view().refs() == k0.frames_view().refs(),
        k2.frames_view().free_spec() == k0.frames_view().free_spec(),
        k0.lowest_free_asid(a as int),
        k2.lowest_free_asid(a as int),
{
    k0.lemma_wf();
    let list = choose|list: Seq<(usize, Pte)>| #[trigger] leaves_of(k1, a, list) && k2.frames_view().refs() == drop_at(
        drop_list(k1.frames_view().refs(), k1.frames_view(), list),
        k1.frames_view().index_of(k1.space(a as int)->0.root as int),
    );
    if list.len() > 0 {
        assert(k1.pages_view()@.contains_key((a, list[0].0)));
        assert(k0.pages_view()@.contains_key((a, list[0].0)));
    }
    assert(drop_list(k1.frames_view().refs(), k1.frames_view(), list) == k1.frames_view().refs());
    let root = k1.space(a as int)->0.root as int;
    let f = k0.frames_view().index_of(root);
    k0.frames_view().lemma_index_in_bounds(root);
    assert(k2.frames_view().refs() =~= k0.frames_view().refs());
    assert forall|x: int| #[trigger] k2.live_asids().contains(x) <==> k0.live_asids().contains(x) by {
        if x != a {
            assert(k2.space(x) == k1.space(x));
        }
    }
    assert(k2.live_asids() =~= k0.live_asids());
    assert forall|u: int| 1 <= u < a implies k2.space(u) is Some by {
        assert(k2.space(u) == k1.space(u));
    }
}

/// Map then unmap: after `mem_map` the page is mapped to the source frame
/// with the requested attributes; after `mem_unmap` it is unmapped and the
/// frame has lost exactly one reference.
pub proof fn lemma_map_unmap_round_trip(
    k0: Kernel,
    k1: Kernel,
    k2: Kernel,
    s: Asid,
    src_va: usize,
    d: Asid,
    va: usize,
    attr: usize,
)
    requires
        map_effect(k0, k1, s, src_va, d, va, attr),
        unmap_effect(k1, k2, d, va),
    ensures
        k1.pages_view()@.contains_key((d, va)),
        k1.pages_view()@[(d, va)].pa == k0.pages_view()@[(s, src_va)].pa,
        attr_bits(k1.pages_view()@[(d, va)].attr) == attr,
        !k2.pages_view()@.contains_key((d, va)),
        k2.frames_view().refs() == drop_one(k1.frames_view(), k0.pages_view()@[(s, src_va)].pa),
{
}

/// Copy-on-write: when one of two pages that share a frame takes its
/// first write fault, it gets a private copy with the same bytes, and the
/// other page still maps the old frame, whose bytes are unchanged.
pub proof fn lemma_cow_split(k0: Kernel, k1: Kernel, key: (Asid, usize), other: (Asid, usize))
    requires
        cow_effect(k0, k1, key),
        k0.pages_view()@.contains_key(key),
        k0.pages_view()@.contains_key(other),
        other != key,
        k0.pages_view()@[other].pa == k0.pages_view()@[key].pa,
        k0.frames_view().refs()[k0.frames_view().index_of(k0.pages_view()@[key].pa as int)] > 1,
    ensures
        k1.pages_view()@[other] == k0.pages_view()@[other],
        k1.pages_view()@[key].pa != k1.pages_view()@[other].pa,
        k1.frames_view().frame_bytes(k1.pages_view()@[key].pa as int) == k1.frames_view().frame_bytes(
            k1.pages_view()@[other].pa as int,
        ),
        k1.frames_view().frame_bytes(k1.pages_view()@[other].pa as int) == k0.frames_view().frame_bytes(
            k0.pages_view()@[other].pa as int,
        ),
        k1.pages_view()@[key].attr.writable,
        !k1.pages_view()@[key].attr.copy_on_write,
{
}

/// Rendezvous atomicity: a call on a thread that waits for a request
/// either hands over the request and wakes it, or fails with
/// `ERROR_HOLD_ON` and leaves everything as it was.
pub proof fn lemma_call_is_atomic(
    k0: Kernel,
    k1: Kernel,
    caller: Tid,
    target: Tid,
    a: usize,
    b: usize,
    c: usize,
    d: usize,
    r: Result<SyscallOut, ErrorCode>,
)
    requires
        call_effect(k0, k1, caller, target as usize, a, b, c, d, r),
        k0.thread(target as int) matches Some(t) && t.status == Status::WaitForRequest,
    ensures
        (r is Ok && k1.thread(target as int) is Some && k1.thread(target as int)->0.status == Status::Runnable
            && holds_result(
            k0.thread(target as int)->0.context,
            k1.thread(target as int)->0.context,
            Ok(SyscallOut::Pentad(caller as usize, a, b, c, d)),
        ) && k1.thread(caller as int)->0.status == Status::WaitForReply) || (r == Err::<SyscallOut, ErrorCode>(
            ERROR_HOLD_ON,
        ) && k1 == k0 && k1.thread(target as int)->0.status == Status::WaitForRequest),
{
}

/// Ending a server wakes each client blocked on it, with an error as the
/// return of its call.
pub proof fn lemma_exit_wakes_clients(k0: Kernel, k1: Kernel, server: Tid, client: Tid)
    requires
        destroy_effect(k0, k1, server),
        client != server,
        k0.thread(client as int) matches Some(th) && th.status == Status::WaitForReply && th.peer == Some(
            server,
        ),
    ensures
        k1.thread(client as int) matches Some(t1) && t1.status == Status::Runnable && t1.peer is None
            && holds_result(k0.thread(client as int)->0.context, t1.context, Err(ERROR_INVARG)),
{
}

} // verus!
