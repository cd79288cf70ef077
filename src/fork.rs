use vstd::prelude::*;
use crate::abi::{Asid, ErrorCode, SyscallOut, Tid, ERROR_INVARG, ERROR_NOMEM, THREAD_STATUS_RUNNABLE};
use crate::kernel::{leaves_of, lemma_attr_bits_injective, Kernel};
use crate::thread::{Status, Type};
use crate::page_table::{attr_bits, user_page, Attr, Pte};
use crate::context::holds_result;
use crate::frame::PAGE_SIZE;
use crate::syscall::{address_space_alloc, thread_set_status};

verus! {

/// The attributes that both sides of a fork give a page: a private
/// writable page becomes read-only copy-on-write, any other stays as it is.
pub open spec fn fork_attr(a: Attr) -> Attr {
    if !a.shared && a.writable && !a.copy_on_write {
        Attr { writable: false, copy_on_write: true, ..a }
    } else {
        a
    }
}

/// Shares page `va` of the caller's space with space `asid`, as fork does:
/// a shared page is mapped as it is; a private writable page becomes
/// read-only copy-on-write on both sides; any other page is mapped as it is.
#[verifier::rlimit(50)]
pub fn duplicate_page(k: &mut Kernel, caller: Tid, asid: Asid, va: usize, pte: Pte)
    requires
        old(k).wf(),
    ensures
        final(k).wf(),
        final(k).threads_view() == old(k).threads_view(),
        final(k).spaces_view() == old(k).spaces_view(),
        final(k).ready_view() == old(k).ready_view(),
        final(k).running_view() == old(k).running_view(),
        final(k).frames_view().base_spec() == old(k).frames_view().base_spec(),
        final(k).frames_view().bytes() == old(k).frames_view().bytes(),
        ({
            let own = old(k).resolve_spec(caller, 0);
            let f = old(k).frames_view().index_of(pte.pa as int);
            let p = own->0;
            own is Some && p != asid && old(k).frames_view().is_frame(pte.pa as int) && old(k).resolve_spec(caller, asid as usize) == Some(asid)
                && user_page(va as int) && old(k).pages_view()@.contains_key((p, va)) && old(k).pages_view()@[(p, va)]
                == pte && 1 <= old(k).frames_view().refs()[f] && old(k).frames_view().refs()[f] + 2 < u32::MAX
                && !old(k).pages_view()@.contains_key((asid, va))
                ==> final(k).frames_view().refs() == old(k).frames_view().refs().update(f, (old(k).frames_view().refs()[f] + 1) as u32)
        }),
        forall|key: (Asid, usize)| key != (asid, va) && key != (old(k).resolve_spec(caller, 0)->0, va) ==> (
            #[trigger] final(k).pages_view()@.contains_key(key) <==> old(k).pages_view()@.contains_key(key)),
        forall|key: (Asid, usize)| key != (asid, va) && key != (old(k).resolve_spec(caller, 0)->0, va)
            && #[trigger] final(k).pages_view()@.contains_key(key) ==> final(k).pages_view()@[key] == old(k).pages_view()@[key],
        ({
            let own = old(k).resolve_spec(caller, 0);
            let f = old(k).frames_view().index_of(pte.pa as int);
            let p = own->0;
            own is Some && p != asid && old(k).frames_view().is_frame(pte.pa as int) && old(k).resolve_spec(caller, asid as usize) == Some(asid)
                && user_page(va as int) && old(k).pages_view()@.contains_key((p, va)) && old(k).pages_view()@[(p, va)]
                == pte && 1 <= old(k).frames_view().refs()[f] && old(k).frames_view().refs()[f] + 2 < u32::MAX
                && !old(k).pages_view()@.contains_key((asid, va)) ==> {
                &&& final(k).pages_view()@.contains_key((asid, va))
                &&& final(k).pages_view()@[(asid, va)] == (Pte { pa: pte.pa, attr: fork_attr(pte.attr) })
                &&& final(k).pages_view()@.contains_key((p, va))
                &&& final(k).pages_view()@[(p, va)] == (Pte { pa: pte.pa, attr: fork_attr(pte.attr) })
            }
        }),
{
    let ghost k0 = *k;
    proof {
        lemma_attr_bits_injective();
    }
    if pte.attr.shared {
        let _ = k.mem_map(caller, 0, va, asid as usize, va, pte.attr.to_bits());
    } else if pte.attr.writable && !pte.attr.copy_on_write {
        let new_attr = Attr { writable: false, copy_on_write: true, ..pte.attr };
        let bits = new_attr.to_bits();
        let r1 = k.mem_map(caller, 0, va, asid as usize, va, bits);
        if r1.is_err() {
            return;
        }
        let ghost k1 = *k;
        let r2 = k.mem_unmap(caller, 0, va);
        if r2.is_err() {
            return;
        }
        let ghost k2 = *k;
        let _ = k.mem_map(caller, asid as usize, va, 0, va, bits);
        proof {
            let p = k0.resolve_spec(caller, 0)->0;
            if k0.resolve_spec(caller, 0) is Some && p != asid && k0.pages_view()@.contains_key((p, va))
                && k0.pages_view()@[(p, va)] == pte && k0.resolve_spec(caller, asid as usize) == Some(asid)
                && user_page(va as int) && k0.frames_view().is_frame(pte.pa as int)
                && 1 <= k0.frames_view().refs()[k0.frames_view().index_of(pte.pa as int)]
                && k0.frames_view().refs()[k0.frames_view().index_of(pte.pa as int)] + 2 < u32::MAX
                && !k0.pages_view()@.contains_key((asid, va)) {
                let f = k0.frames_view().index_of(pte.pa as int);
                let c = k0.frames_view().refs()[f];
                k0.frames_view().lemma_index_in_bounds(pte.pa as int);
                assert(k1.resolve_spec(caller, 0) == k0.resolve_spec(caller, 0));
                assert(k1.resolve_spec(caller, asid as usize) == Some(asid));
                assert(k1.pages_view()@.contains_key((asid, va)));
                assert(k1.pages_view()@[(asid, va)].pa == pte.pa);
                assert(k1.pages_view()@[(asid, va)].attr == new_attr);
                assert(k1.pages_view()@.contains_key((p, va)));
                assert(k1.pages_view()@[(p, va)] == pte);
                assert(k1.frames_view().refs()[f] == c + 1);
                assert(k2.resolve_spec(caller, 0) == k0.resolve_spec(caller, 0));
                assert(k2.resolve_spec(caller, asid as usize) == Some(asid));
                assert(!k2.pages_view()@.contains_key((p, va)));
                assert(k2.pages_view()@.contains_key((asid, va)));
                assert(k2.pages_view()@[(asid, va)] == k1.pages_view()@[(asid, va)]);
                assert(k2.frames_view().base_spec() == k0.frames_view().base_spec());
                assert(k2.frames_view().refs()[f] == c);
                assert(k.pages_view()@.contains_key((p, va)));
                assert(k.pages_view()@[(p, va)].pa == pte.pa);
                assert(k.pages_view()@[(p, va)].attr == new_attr);
                assert(k.pages_view()@[(asid, va)] == k2.pages_view()@[(asid, va)]);
                assert(k.frames_view().refs() =~= k0.frames_view().refs().update(f, (c + 1) as u32));
            }
        }
    } else {
        let _ = k.mem_map(caller, 0, va, asid as usize, va, pte.attr.to_bits());
    }
}

/// The fork attributes of `a`.
pub fn fork_attr_of(a: Attr) -> (r: Attr)
    ensures
        r == fork_attr(a),
{
    if !a.shared && a.writable && !a.copy_on_write {
        Attr { writable: false, copy_on_write: true, ..a }
    } else {
        a
    }
}

/// The frame count of each leaf leaves room for one more reference per
/// leaf of the list, and two to spare.
pub open spec fn counts_have_room(k: Kernel, list: Seq<(usize, Pte)>) -> bool {
    forall|j: int| 0 <= j < list.len() ==> {
        let c = #[trigger] k.frames_view().refs()[k.frames_view().index_of(list[j].1.pa as int)];
        1 <= c && c + list.len() + 2 < u32::MAX
    }
}

/// No address-space id, no frame or no thread id is free.
pub open spec fn alloc_exhausted(k: Kernel) -> bool {
    (forall|a: int| 1 <= a <= k.spaces_view().len() ==> k.space(a) is Some)
        || k.frames_view().free_spec() == 0
        || (forall|t: int| 1 <= t <= k.threads_view().len() ==> k.thread(t) is Some)
}

/// Forks the caller's address space: a new space whose main thread is a
/// copy of the caller and is made runnable, and every page of the caller
/// shared with it as `duplicate_page` does. Fails, changing nothing, with
/// `ERROR_INVARG` for a caller without an address space, and with
/// `ERROR_NOMEM` when no space id, frame or thread id is free or when a
/// frame's reference count is 0 or too close to its limit to share.
/// Returns the child's space and main thread.
#[verifier::rlimit(50)]
pub fn fork(k: &mut Kernel, caller: Tid) -> (r: Result<(Asid, Tid), ErrorCode>)
    requires
        old(k).wf(),
        old(k).thread(caller as int) is Some,
    ensures
        final(k).wf(),
        r is Err ==> *final(k) == *old(k),
        r == Err::<(Asid, Tid), ErrorCode>(ERROR_INVARG) <==> old(k).resolve_spec(caller, 0) is None,
        old(k).resolve_spec(caller, 0) is Some && alloc_exhausted(*old(k)) ==> r == Err::<(Asid, Tid), ErrorCode>(ERROR_NOMEM),
        r is Err ==> r == Err::<(Asid, Tid), ErrorCode>(ERROR_INVARG) || r == Err::<(Asid, Tid), ErrorCode>(ERROR_NOMEM),
        r == Err::<(Asid, Tid), ErrorCode>(ERROR_NOMEM) ==> alloc_exhausted(*old(k)) || exists|list: Seq<(usize, Pte)>|
            #[trigger] leaves_of(*old(k), old(k).resolve_spec(caller, 0)->0, list) && !counts_have_room(*old(k), list),
        r matches Ok((a, t)) ==> {
            let own = old(k).resolve_spec(caller, 0)->0;
            &&& old(k).lowest_free_asid(a as int)
            &&& final(k).space(a as int) is Some
            &&& old(k).thread(t as int) is None
            &&& final(k).thread(t as int) matches Some(th) && th.kind == Type::User(a) && th.parent == Some(caller)
                && th.status == Status::Runnable
            &&& holds_result(
                old(k).thread(caller as int)->0.context,
                final(k).thread(t as int)->0.context,
                Ok(SyscallOut::Pentad(0, 0, 0, 0, 0)),
            )
            &&& final(k).ready_view().contains(t) || final(k).running_view() == Some(t)
            &&& forall|va: usize| #[trigger] old(k).read_spec(own, va) is Some ==> final(k).read_spec(a, va)
                == old(k).read_spec(own, va) && final(k).read_spec(own, va) == old(k).read_spec(own, va)
            &&& forall|va: usize| #[trigger] old(k).pages_view()@.contains_key((own, va)) ==> {
                let want = Pte { pa: old(k).pages_view()@[(own, va)].pa, attr: fork_attr(old(k).pages_view()@[(own, va)].attr) };
                &&& final(k).pages_view()@.contains_key((a, va))
                &&& final(k).pages_view()@[(a, va)] == want
                &&& final(k).pages_view()@.contains_key((own, va))
                &&& final(k).pages_view()@[(own, va)] == want
            }
        },
{
    proof { k.lemma_wf(); }
    let own = match k.resolve_public(caller, 0) {
        None => { return Err(ERROR_INVARG); },
        Some(o) => o,
    };
    let pages = k.traverse(own);
    let n = pages.len();
    let lim = u32::MAX as usize;
    assert(leaves_of(*old(k), own, pages@));
    if n >= lim - 2 {
        proof {
            let c0 = old(k).frames_view().refs()[old(k).frames_view().index_of(pages@[0].1.pa as int)];
            assert(!(1 <= c0 && c0 + pages@.len() + 2 < u32::MAX));
            assert(!counts_have_room(*old(k), pages@));
            assert(leaves_of(*old(k), old(k).resolve_spec(caller, 0)->0, pages@));
        }
        return Err(ERROR_NOMEM);
    }
    let mut j: usize = 0;
    while j < n
        invariant
            *k == *old(k),
            k.wf(),
            leaves_of(*old(k), own, pages@),
            old(k).resolve_spec(caller, 0) == Some(own),
            n == pages@.len(),
            n < lim - 2,
            lim == u32::MAX,
            j <= n,
            forall|x: int| 0 <= x < pages@.len() ==> #[trigger] k.pages_view()@.contains_key((own, pages@[x].0))
                && k.pages_view()@[(own, pages@[x].0)] == pages@[x].1,
            forall|x: int| 0 <= x < j ==> {
                let c = #[trigger] k.frames_view().refs()[k.frames_view().index_of(pages@[x].1.pa as int)];
                1 <= c && c + pages@.len() + 2 < u32::MAX
            },
        decreases n - j,
    {
        proof {
            assert(k.pages_view()@.contains_key((own, pages@[j as int].0)));
            assert(k.pages_view()@[(own, pages@[j as int].0)] == pages@[j as int].1);
            k.lemma_mapped_frame(own, pages@[j as int].0);
            assert(k.frames_view().is_frame(pages@[j as int].1.pa as int));
        }
        let c = match k.frame_refcount(pages[j].1.pa) {
            Some(c) => c,
            None => {
                assert(false);
                return Err(ERROR_NOMEM);
            },
        };
        if c == 0 || c as usize >= lim - 2 - n {
            assert(!(1 <= c && c + pages@.len() + 2 < u32::MAX));
            assert(!counts_have_room(*old(k), pages@));
            assert(leaves_of(*old(k), old(k).resolve_spec(caller, 0)->0, pages@));
            return Err(ERROR_NOMEM);
        }
        j = j + 1;
    }
    assert(counts_have_room(*old(k), pages@));
    assert(*k == *old(k));
    let (asid, tid) = match address_space_alloc(k, caller) {
        Ok(SyscallOut::Pentad(a, t, _, _, _)) => (a as Asid, t as Tid),
        Ok(_) => {
            assert(false);
            return Err(ERROR_NOMEM);
        },
        Err(e) => { return Err(e); },
    };
    let ghost k1 = *k;
    assert(!alloc_exhausted(*old(k)));
    proof {
        k.lemma_wf();
        assert(k.thread(caller as int) == old(k).thread(caller as int));
        assert(k.space(own as int) == old(k).space(own as int));
        assert(k.resolve_spec(caller, 0) == Some(own));
        assert forall|x: int| 0 <= x < pages@.len() implies !#[trigger] k1.pages_view()@.contains_key((asid, pages@[x].0)) by {
            if old(k).pages_view()@.contains_key((asid, pages@[x].0)) {
                old(k).lemma_wf();
            }
        }
        assert forall|x: int| 0 <= x < pages@.len() implies {
            let c = #[trigger] k1.frames_view().refs()[k1.frames_view().index_of(pages@[x].1.pa as int)];
            1 <= c && c + pages@.len() + 2 < u32::MAX
        } by {
            old(k).lemma_mapped_frame(own, pages@[x].0);
            old(k).frames_view().lemma_index_in_bounds(pages@[x].1.pa as int);
            let f = old(k).frames_view().index_of(pages@[x].1.pa as int);
            let c = old(k).frames_view().refs()[old(k).frames_view().index_of(pages@[x].1.pa as int)];
            assert(1 <= c && c + pages@.len() + 2 < u32::MAX);
            assert(k1.frames_view().refs()[f] == old(k).frames_view().refs()[f]);
            assert(k1.frames_view().index_of(pages@[x].1.pa as int) == f);
        }
    }
    let mut i: usize = 0;
    while i < n
        invariant
            k.wf(),
            n == pages@.len(),
            i <= n,
            n < u32::MAX - 2,
            old(k).resolve_spec(caller, 0) == Some(own),
            !alloc_exhausted(*old(k)),
            k1.space(asid as int) is Some,
            own != asid,
            k.resolve_spec(caller, 0) == Some(own),
            k.resolve_spec(caller, asid as usize) == Some(asid),
            k.threads_view() == k1.threads_view(),
            k.spaces_view() == k1.spaces_view(),
            k.ready_view() == k1.ready_view(),
            k.running_view() == k1.running_view(),
            k.frames_view().base_spec() == k1.frames_view().base_spec(),
            k.frames_view().bytes() == k1.frames_view().bytes(),
            k.frames_view().refs().len() == k1.frames_view().refs().len(),
            forall|f: int| 0 <= f < k1.frames_view().refs().len() ==> k1.frames_view().refs()[f] <= #[trigger] k.frames_view().refs()[f]
                <= k1.frames_view().refs()[f] + i,
            forall|x: int| 0 <= x < pages@.len() ==> {
                let c = #[trigger] k1.frames_view().refs()[k1.frames_view().index_of(pages@[x].1.pa as int)];
                1 <= c && c + pages@.len() + 2 < u32::MAX
            },
            forall|j: int| 0 <= j < pages@.len() ==> #[trigger] k1.pages_view()@.contains_key((own, pages@[j].0))
                && k1.pages_view()@[(own, pages@[j].0)] == pages@[j].1,
            forall|a: int, b: int| 0 <= a < b < pages@.len() ==> #[trigger] pages@[a].0 != #[trigger] pages@[b].0,
            forall|j: int| 0 <= j < i ==> {
                let want = Pte { pa: (#[trigger] pages@[j]).1.pa, attr: fork_attr(pages@[j].1.attr) };
                &&& k.pages_view()@.contains_key((asid, pages@[j].0))
                &&& k.pages_view()@[(asid, pages@[j].0)] == want
                &&& k.pages_view()@.contains_key((own, pages@[j].0))
                &&& k.pages_view()@[(own, pages@[j].0)] == want
            },
            forall|j: int| i <= j < pages@.len() ==> k.pages_view()@.contains_key((own, (#[trigger] pages@[j]).0))
                && k.pages_view()@[(own, pages@[j].0)] == pages@[j].1 && !k.pages_view()@.contains_key((asid, pages@[j].0)),
        decreases n - i,
    {
        let va = pages[i].0;
        let pte = pages[i].1;
        let ghost before = *k;
        proof {
            before.lemma_wf();
            before.lemma_mapped_frame(own, va);
            before.frames_view().lemma_index_in_bounds(pte.pa as int);
            let f = before.frames_view().index_of(pte.pa as int);
            assert(k1.frames_view().index_of(pte.pa as int) == f);
            let c1 = k1.frames_view().refs()[k1.frames_view().index_of(pages@[i as int].1.pa as int)];
            assert(1 <= c1 && c1 + pages@.len() + 2 < u32::MAX);
            assert(user_page(va as int));
            assert(1 <= before.frames_view().refs()[f]);
            assert(before.frames_view().refs()[f] + 2 < u32::MAX);
        }
        duplicate_page(k, caller, asid, va, pte);
        proof {
            let f = before.frames_view().index_of(pte.pa as int);
            assert forall|g: int| 0 <= g < k1.frames_view().refs().len() implies k1.frames_view().refs()[g] <= #[trigger] k.frames_view().refs()[g]
                <= k1.frames_view().refs()[g] + i + 1 by {
                if g != f {
                    assert(k.frames_view().refs()[g] == before.frames_view().refs()[g]);
                }
            }
            assert forall|j: int| 0 <= j < i + 1 implies {
                let want = Pte { pa: (#[trigger] pages@[j]).1.pa, attr: fork_attr(pages@[j].1.attr) };
                &&& k.pages_view()@.contains_key((asid, pages@[j].0))
                &&& k.pages_view()@[(asid, pages@[j].0)] == want
                &&& k.pages_view()@.contains_key((own, pages@[j].0))
                &&& k.pages_view()@[(own, pages@[j].0)] == want
            } by {
                if j < i {
                    let vj = pages@[j].0;
                    assert(vj != va);
                    assert(before.pages_view()@.contains_key((asid, vj)));
                    assert(before.pages_view()@.contains_key((own, vj)));
                    assert((asid, vj) != (asid, va) && (asid, vj) != (before.resolve_spec(caller, 0)->0, va));
                    assert((own, vj) != (asid, va) && (own, vj) != (before.resolve_spec(caller, 0)->0, va));
                    assert(k.pages_view()@.contains_key((asid, vj)));
                    assert(k.pages_view()@[(asid, vj)] == before.pages_view()@[(asid, vj)]);
                    assert(k.pages_view()@.contains_key((own, vj)));
                    assert(k.pages_view()@[(own, vj)] == before.pages_view()@[(own, vj)]);
                }
            }
            assert forall|j: int| i + 1 <= j < pages@.len() implies k.pages_view()@.contains_key((own, (#[trigger] pages@[j]).0))
                && k.pages_view()@[(own, pages@[j].0)] == pages@[j].1 && !k.pages_view()@.contains_key((asid, pages@[j].0)) by {
                let vj = pages@[j].0;
                assert(vj != va);
                assert(before.pages_view()@.contains_key((own, vj)));
                assert((own, vj) != (asid, va) && (own, vj) != (before.resolve_spec(caller, 0)->0, va));
                assert((asid, vj) != (asid, va) && (asid, vj) != (before.resolve_spec(caller, 0)->0, va));
                assert(k.pages_view()@.contains_key((own, vj)));
                assert(k.pages_view()@[(own, vj)] == before.pages_view()@[(own, vj)]);
            }
        }
        i = i + 1;
    }
    let ghost k2 = *k;
    let _ = thread_set_status(k, tid as usize, THREAD_STATUS_RUNNABLE);
    proof {
        assert(k.pages_view() == k2.pages_view());
        assert forall|va: usize| #[trigger] old(k).pages_view()@.contains_key((own, va)) implies {
            let want = Pte { pa: old(k).pages_view()@[(own, va)].pa, attr: fork_attr(old(k).pages_view()@[(own, va)].attr) };
            &&& k.pages_view()@.contains_key((asid, va))
            &&& k.pages_view()@[(asid, va)] == want
            &&& k.pages_view()@.contains_key((own, va))
            &&& k.pages_view()@[(own, va)] == want
        } by {
            assert(k1.pages_view()@.contains_key((own, va)));
            let j = choose|j: int| 0 <= j < pages@.len() && pages@[j].0 == va;
            assert(pages@[j].0 == va);
        }
        assert(k.space(asid as int) == k1.space(asid as int));
        k.lemma_wf();
        k1.lemma_wf();
        old(k).lemma_wf();
        assert forall|va: usize| #[trigger] old(k).read_spec(own, va) is Some implies k.read_spec(asid, va)
            == old(k).read_spec(own, va) && k.read_spec(own, va) == old(k).read_spec(own, va) by {
            let page = (va - va % PAGE_SIZE) as usize;
            let off = (va % PAGE_SIZE) as int;
            assert(old(k).pages_view()@.contains_key((own, page)));
            let pa = old(k).pages_view()@[(own, page)].pa as int;
            let j = choose|j: int| 0 <= j < pages@.len() && pages@[j].0 == page;
            assert(pages@[j].1.pa as int == pa);
            let c = old(k).frames_view().refs()[old(k).frames_view().index_of(pages@[j].1.pa as int)];
            assert(1 <= c && c + pages@.len() + 2 < u32::MAX);
            old(k).lemma_mapped_frame(own, page);
            assert(k1.frames_view().frame_bytes(pa) == old(k).frames_view().frame_bytes(pa));
            assert(k.pages_view()@[(asid, page)].pa == pa);
            assert(k.pages_view()@[(own, page)].pa == pa);
            assert(k.frames_view().bytes() == k1.frames_view().bytes());
            k1.frames_view().lemma_byte_in_frame(pa, off);
            old(k).frames_view().lemma_byte_in_frame(pa, off);
            assert(k.frames_view().byte_at(pa + off) == k1.frames_view().byte_at(pa + off));
        }
    }
    Ok((asid, tid))
}

} // verus!
