use vstd::prelude::*;
use crate::abi::{Asid, ErrorCode, SyscallOut, SyscallResult, Tid, ERROR_DENIED, ERROR_HOLD_ON, ERROR_INVARG, ERROR_NOMEM};
use crate::context::{holds_result, ContextFrame, SPSR_KERNEL, SPSR_USER};
use crate::frame::FrameAllocator;
use crate::page_table::{attr_bits, user_page, Attr, PageMap, Pte, ATTR_BITS_LIMIT, USER_LIMIT};
use crate::frame::PAGE_SIZE;
use crate::trap::FAULT_EVENT;
use crate::thread::{accepts, Error, Status, Thread, Type};

verus! {

/// Largest number of identifiers of one kind (ids are 1..=65535).
pub const MAX_IDS: usize = 65535;

/// An address space: the frame that holds its root table.
#[derive(Clone, Copy, Debug, PartialEq, Eq, Structural)]
pub struct Space {
    pub root: usize,
}

/// A user handler registered for an interrupt line (or for the page-fault
/// event, line 0) of one address space.
#[derive(Clone, Copy, Debug, PartialEq, Eq, Structural)]
pub struct EventHandler {
    pub irq: usize,
    pub asid: Asid,
    pub entry: usize,
    pub sp: usize,
}

/// A fresh frame as `ContextFrame::new` builds it.
pub open spec fn fresh_frame(c: ContextFrame, pc: usize, sp: usize, arg: usize, privileged: bool) -> bool {
    &&& c.pc == pc
    &&& c.sp == sp
    &&& c.gpr@[0] == arg
    &&& forall|i: int| 1 <= i < 31 ==> c.gpr@[i] == 0
    &&& c.spsr == if privileged { SPSR_KERNEL } else { SPSR_USER }
}

/// The whole state of the kernel core: frames, page tables, address
/// spaces, threads and the ready queue of the core.
pub struct Kernel {
    frames: FrameAllocator,
    pages: PageMap,
    spaces: Vec<Option<Space>>,
    threads: Vec<Option<Thread>>,
    ready: Vec<Tid>,
    running: Option<Tid>,
    handlers: Vec<EventHandler>,
    servers: Vec<(usize, Tid)>,
    console: Vec<u8>,
}

impl Kernel {
    pub closed spec fn frames_view(&self) -> FrameAllocator {
        self.frames
    }

    pub closed spec fn pages_view(&self) -> PageMap {
        self.pages
    }

    /// Thread slots; slot `i` holds the thread with id `i + 1`.
    pub closed spec fn threads_view(&self) -> Seq<Option<Thread>> {
        self.threads@
    }

    /// Address-space slots; slot `i` holds the space with id `i + 1`.
    pub closed spec fn spaces_view(&self) -> Seq<Option<Space>> {
        self.spaces@
    }

    /// The ready queue, head first.
    pub closed spec fn ready_view(&self) -> Seq<Tid> {
        self.ready@
    }

    pub closed spec fn running_view(&self) -> Option<Tid> {
        self.running
    }

    pub closed spec fn handlers_view(&self) -> Seq<EventHandler> {
        self.handlers@
    }

    pub closed spec fn servers_view(&self) -> Seq<(usize, Tid)> {
        self.servers@
    }

    pub closed spec fn console_view(&self) -> Seq<u8> {
        self.console@
    }

    /// The live thread with id `tid`.
    pub open spec fn thread(&self, tid: int) -> Option<Thread> {
        if 1 <= tid <= self.threads_view().len() {
            self.threads_view()[tid - 1]
        } else {
            None
        }
    }

    /// The live address space with id `asid`.
    pub open spec fn space(&self, asid: int) -> Option<Space> {
        if 1 <= asid <= self.spaces_view().len() {
            self.spaces_view()[asid - 1]
        } else {
            None
        }
    }

    /// Ids of the live threads.
    pub open spec fn live_tids(&self) -> Set<int> {
        Set::new(|t: int| self.thread(t) is Some)
    }

    /// Ids of the live address spaces.
    pub open spec fn live_asids(&self) -> Set<int> {
        Set::new(|a: int| self.space(a) is Some)
    }

    pub closed spec fn wf(&self) -> bool {
        &&& self.frames.wf()
        &&& self.pages.wf()
        &&& self.threads@.len() <= MAX_IDS
        &&& self.spaces@.len() <= MAX_IDS
        &&& forall|i: int|
            0 <= i < self.threads@.len() && #[trigger] self.threads@[i] is Some ==> self.threads@[i]->0.tid
                == i + 1
        &&& forall|i: int|
            0 <= i < self.spaces@.len() && #[trigger] self.spaces@[i] is Some ==> self.frames.is_frame(
                self.spaces@[i]->0.root as int,
            )
        &&& forall|k: (Asid, usize)|
            #[trigger] self.pages@.contains_key(k) ==> self.frames.is_frame(self.pages@[k].pa as int)
        &&& forall|k: (Asid, usize)| #[trigger] self.pages@.contains_key(k) ==> self.space(k.0 as int) is Some
        &&& forall|k: (Asid, usize)| #[trigger] self.pages@.contains_key(k) ==> user_page(k.1 as int)
        &&& forall|i: int, j: int|
            0 <= i < j < self.ready@.len() ==> #[trigger] self.ready@[i] != #[trigger] self.ready@[j]
        &&& forall|i: int|
            0 <= i < self.ready@.len() ==> {
                let t = #[trigger] self.ready@[i];
                &&& self.thread(t as int) is Some
                &&& self.thread(t as int)->0.status == Status::Runnable
                &&& self.running != Some(t)
            }
        &&& self.running matches Some(t) ==> self.thread(t as int) is Some
    }

    /// A kernel over `frame_count` frames at `frame_base`, with room for
    /// `max_threads` threads and `max_spaces` address spaces.
    pub fn new(frame_base: usize, frame_count: usize, max_threads: usize, max_spaces: usize) -> (r:
        Kernel)
        requires
            frame_base % 4096 == 0,
            frame_base + frame_count * 4096 <= usize::MAX,
            max_threads <= MAX_IDS,
            max_spaces <= MAX_IDS,
        ensures
            r.wf(),
            r.threads_view() == Seq::new(max_threads as nat, |i: int| None::<Thread>),
            r.spaces_view() == Seq::new(max_spaces as nat, |i: int| None::<Space>),
            r.frames_view().free_spec() == frame_count,
            r.frames_view().frame_count() == frame_count,
            r.pages_view()@ == Map::<(Asid, usize), crate::page_table::Pte>::empty(),
            r.ready_view().len() == 0,
            r.running_view() is None,
    {
        let frames = FrameAllocator::new(frame_base, frame_count);
        let mut threads: Vec<Option<Thread>> = Vec::new();
        let mut i: usize = 0;
        while i < max_threads
            invariant
                i <= max_threads,
                threads@ == Seq::new(i as nat, |k: int| None::<Thread>),
            decreases max_threads - i,
        {
            threads.push(None);
            i = i + 1;
            assert(threads@ =~= Seq::new(i as nat, |k: int| None::<Thread>));
        }
        let mut spaces: Vec<Option<Space>> = Vec::new();
        let mut j: usize = 0;
        while j < max_spaces
            invariant
                j <= max_spaces,
                spaces@ == Seq::new(j as nat, |k: int| None::<Space>),
            decreases max_spaces - j,
        {
            spaces.push(None);
            j = j + 1;
            assert(spaces@ =~= Seq::new(j as nat, |k: int| None::<Space>));
        }
        Kernel {
            frames,
            pages: PageMap::new(),
            spaces,
            threads,
            ready: Vec::new(),
            running: None,
            handlers: Vec::new(),
            servers: Vec::new(),
            console: Vec::new(),
        }
    }

    /// The thread with id `tid`, if it is live.
    pub fn lookup(&self, tid: usize) -> (r: Option<Thread>)
        requires
            self.wf(),
        ensures
            r == self.thread(tid as int),
    {
        if tid >= 1 && tid <= self.threads.len() {
            self.threads[tid - 1]
        } else {
            None
        }
    }

    /// The thread that runs on this core; `None` while the core idles.
    pub fn running_thread(&self) -> (r: Option<Tid>)
        ensures
            r == self.running_view(),
    {
        self.running
    }

    /// The ready queue, head first.
    pub fn ready_queue(&self) -> (r: Vec<Tid>)
        ensures
            r@ == self.ready_view(),
    {
        self.ready.clone()
    }

    fn ready_contains(&self, t: Tid) -> (r: bool)
        ensures
            r == self.ready@.contains(t),
    {
        let mut i: usize = 0;
        while i < self.ready.len()
            invariant
                i <= self.ready@.len(),
                forall|j: int| 0 <= j < i ==> self.ready@[j] != t,
            decreases self.ready@.len() - i,
        {
            if self.ready[i] == t {
                return true;
            }
            i = i + 1;
        }
        false
    }

    /// Replaces the entry of a live thread.
    fn set_thread(&mut self, th: Thread)
        requires
            old(self).wf(),
            old(self).thread(th.tid as int) is Some,
            th.status == Status::Runnable || !old(self).ready@.contains(th.tid),
        ensures
            final(self).wf(),
            final(self).threads@ == old(self).threads@.update(th.tid - 1, Some(th)),
            final(self).frames == old(self).frames,
            final(self).pages == old(self).pages,
            final(self).spaces == old(self).spaces,
            final(self).ready == old(self).ready,
            final(self).running == old(self).running,
            final(self).handlers == old(self).handlers,
            final(self).servers == old(self).servers,
            final(self).console == old(self).console,
    {
        let ghost before = *self;
        self.threads.set((th.tid - 1) as usize, Some(th));
        proof {
            assert forall|j: int|
                0 <= j < self.ready@.len() implies {
                let t = #[trigger] self.ready@[j];
                &&& self.thread(t as int) is Some
                &&& self.thread(t as int)->0.status == Status::Runnable
                &&& self.running != Some(t)
            } by {
                let t = self.ready@[j];
                assert(before.thread(t as int) is Some);
                if t == th.tid {
                    assert(before.ready@.contains(t));
                }
            }
        }
    }

    /// Takes `tid` out of the ready queue, keeping the order of the others.
    fn unqueue(&mut self, tid: Tid)
        requires
            old(self).wf(),
        ensures
            final(self).wf(),
            final(self).ready@ == old(self).ready@.filter(other_than(tid)),
            !final(self).ready@.contains(tid),
            final(self).threads == old(self).threads,
            final(self).frames == old(self).frames,
            final(self).pages == old(self).pages,
            final(self).spaces == old(self).spaces,
            final(self).running == old(self).running,
            final(self).handlers == old(self).handlers,
            final(self).servers == old(self).servers,
            final(self).console == old(self).console,
    {
        let ghost pred = other_than(tid);
        assert(forall|x: Tid| #[trigger] pred(x) == (x != tid));
        let mut out: Vec<Tid> = Vec::new();
        let mut i: usize = 0;
        while i < self.ready.len()
            invariant
                self.wf(),
                i <= self.ready@.len(),
                pred == other_than(tid),
                out@ == self.ready@.subrange(0, i as int).filter(pred),
                forall|k: int| 0 <= k < out@.len() ==> #[trigger] out@[k] != tid,
                forall|k: int|
                    0 <= k < out@.len() ==> exists|j: int| 0 <= j < i && self.ready@[j] == #[trigger] out@[k],
                forall|a: int, b: int| 0 <= a < b < out@.len() ==> #[trigger] out@[a] != #[trigger] out@[b],
            decreases self.ready@.len() - i,
        {
            let x = self.ready[i];
            let ghost prev = out@;
            proof {
                reveal(Seq::filter);
                assert(self.ready@.subrange(0, i + 1).drop_last() =~= self.ready@.subrange(0, i as int));
                assert(self.ready@.subrange(0, i + 1).last() == x);
                assert(pred(x) == (x != tid));
                assert(self.ready@.subrange(0, i + 1).len() > 0);
                assert(self.ready@.subrange(0, i + 1).filter(pred) == if x != tid {
                    prev.push(x)
                } else {
                    prev
                });
            }
            if x != tid {
                proof {
                    assert forall|k: int| 0 <= k < out@.len() implies #[trigger] out@[k] != x by {
                        let j = choose|j: int| 0 <= j < i && self.ready@[j] == out@[k];
                    }
                }
                out.push(x);
                proof {
                    assert forall|k: int|
                        0 <= k < out@.len() implies exists|j: int| 0 <= j < i + 1 && self.ready@[j] == #[trigger] out@[k] by {
                        if k == out@.len() - 1 {
                            assert(self.ready@[i as int] == out@[k]);
                        } else {
                            let j = choose|j: int| 0 <= j < i && self.ready@[j] == out@[k];
                        }
                    }
                }
            }
            i = i + 1;
        }
        proof {
            assert(self.ready@.subrange(0, self.ready@.len() as int) =~= self.ready@);
            assert forall|k: int| 0 <= k < out@.len() implies {
                let t = #[trigger] out@[k];
                &&& self.thread(t as int) is Some
                &&& self.thread(t as int)->0.status == Status::Runnable
                &&& self.running != Some(t)
            } by {
                let j = choose|j: int| 0 <= j < self.ready@.len() && self.ready@[j] == out@[k];
                assert(self.ready@[j] == out@[k]);
            }
        }
        self.ready = out;
    }

    /// Whether `t` is in the ready queue.
    pub fn is_ready(&self, t: Tid) -> (r: bool)
        ensures
            r == self.ready_view().contains(t),
    {
        self.ready_contains(t)
    }

    /// Makes a thread runnable and queues it, unless it is queued or running
    /// already.
    pub fn wake(&mut self, tid: usize) -> (r: Result<(), Error>)
        requires
            old(self).wf(),
        ensures
            final(self).wf(),
            r is Err <==> old(self).thread(tid as int) is None,
            r is Err ==> *final(self) == *old(self),
            r is Ok ==> wake_effect(*old(self), *final(self), tid as Tid),
    {
        if tid < 1 || tid > self.threads.len() {
            return Err(Error::ThreadNotFoundError);
        }
        match self.threads[tid - 1] {
            None => Err(Error::ThreadNotFoundError),
            Some(th) => {
                let t = tid as Tid;
                self.set_thread(Thread { status: Status::Runnable, ..th });
                self.enqueue(t);
                Ok(())
            },
        }
    }

    /// Queues a runnable thread unless it is queued or running already.
    fn enqueue(&mut self, t: Tid)
        requires
            old(self).wf(),
            old(self).thread(t as int) is Some,
            old(self).thread(t as int)->0.status == Status::Runnable,
        ensures
            final(self).wf(),
            final(self).ready@ == if old(self).running == Some(t) || old(self).ready@.contains(t) {
                old(self).ready@
            } else {
                old(self).ready@.push(t)
            },
            final(self).threads == old(self).threads,
            final(self).frames == old(self).frames,
            final(self).pages == old(self).pages,
            final(self).spaces == old(self).spaces,
            final(self).running == old(self).running,
            final(self).handlers == old(self).handlers,
            final(self).servers == old(self).servers,
            final(self).console == old(self).console,
    {
        if self.running != Some(t) && !self.ready_contains(t) {
            let ghost before = *self;
            self.ready.push(t);
            proof {
                assert forall|j: int|
                    0 <= j < self.ready@.len() implies {
                    let x = #[trigger] self.ready@[j];
                    &&& self.thread(x as int) is Some
                    &&& self.thread(x as int)->0.status == Status::Runnable
                    &&& self.running != Some(x)
                } by {
                    if j < before.ready@.len() {
                        assert(before.ready@[j] == self.ready@[j]);
                    }
                }
                assert forall|a: int, b: int|
                    0 <= a < b < self.ready@.len() implies #[trigger] self.ready@[a] != #[trigger] self.ready@[b] by {
                    if b == before.ready@.len() {
                        assert(before.ready@[a] == self.ready@[a]);
                        assert(before.ready@.contains(before.ready@[a]));
                    }
                }
            }
        }
    }

    /// Writes `r` as the syscall return of a blocked thread, clears its peer
    /// and makes it runnable.
    fn deliver(&mut self, tid: Tid, r: SyscallResult)
        requires
            old(self).wf(),
            old(self).thread(tid as int) is Some,
        ensures
            final(self).wf(),
            deliver_effect(*old(self), *final(self), tid, r),
    {
        let th = self.threads[(tid - 1) as usize].unwrap();
        let mut ctx = th.context;
        ctx.set_syscall_result(&r);
        self.set_thread(Thread { status: Status::Runnable, peer: None, context: ctx, ..th });
        self.enqueue(tid);
    }

    /// Wakes every thread blocked in a rendezvous with `dying`, with an
    /// error as its syscall return.
    fn exit_signal(&mut self, dying: Tid)
        requires
            old(self).wf(),
        ensures
            final(self).wf(),
            same_memory(*old(self), *final(self)),
            final(self).running_view() == old(self).running_view(),
            final(self).threads_view().len() == old(self).threads_view().len(),
            forall|t: int| #[trigger] final(self).thread(t) is Some <==> old(self).thread(t) is Some,
            forall|t: int|
                #[trigger] old(self).thread(t) matches Some(th) ==> if waits_on(th, dying) {
                    delivered(th, final(self).thread(t)->0, Err(ERROR_INVARG))
                } else {
                    final(self).thread(t) == old(self).thread(t)
                },
            forall|t: Tid|
                #[trigger] final(self).ready_view().contains(t) <==> (old(self).ready_view().contains(t)
                    || (old(self).thread(t as int) matches Some(th) && waits_on(th, dying)
                    && old(self).running_view() != Some(t))),
    {
        let ghost k0 = *self;
        let n = self.threads.len();
        let mut i: usize = 0;
        while i < n
            invariant
                self.wf(),
                n == self.threads@.len(),
                n == k0.threads@.len(),
                i <= n,
                same_memory(k0, *self),
                self.running == k0.running,
                forall|t: int| #[trigger] self.thread(t) is Some <==> k0.thread(t) is Some,
                forall|t: int|
                    #[trigger] k0.thread(t) matches Some(th) ==> if t <= i && waits_on(th, dying) {
                        delivered(th, self.thread(t)->0, Err(ERROR_INVARG))
                    } else {
                        self.thread(t) == k0.thread(t)
                    },
                forall|t: Tid|
                    #[trigger] self.ready@.contains(t) <==> (k0.ready@.contains(t) || (k0.thread(
                        t as int,
                    ) matches Some(th) && t <= i && waits_on(th, dying) && k0.running != Some(t))),
            decreases n - i,
        {
            let slot = self.threads[i];
            let ghost before = *self;
            match slot {
                Some(th) => {
                    if th.peer == Some(dying) && (th.status == Status::WaitForRequest || th.status
                        == Status::WaitForReply) {
                        self.deliver(th.tid, Err(ERROR_INVARG));
                        proof {
                            assert(th.tid == i + 1);
                            assert forall|t: Tid| #[trigger] self.ready@.contains(t) <==> (k0.ready@.contains(t) || (k0.thread(
                                t as int,
                            ) matches Some(th) && t <= i + 1 && waits_on(th, dying) && k0.running != Some(t))) by {
                                if t == th.tid {
                                    if before.ready@.contains(t) {
                                    } else if k0.running != Some(t) {
                                        assert(self.ready@ == before.ready@.push(t));
                                        assert(self.ready@[before.ready@.len() as int] == t);
                                    }
                                } else {
                                    if before.ready@.contains(t) {
                                        let j = choose|j: int| 0 <= j < before.ready@.len() && before.ready@[j] == t;
                                        assert(self.ready@[j] == t);
                                    }
                                    if self.ready@.contains(t) {
                                        let j = choose|j: int| 0 <= j < self.ready@.len() && self.ready@[j] == t;
                                        if j < before.ready@.len() {
                                            assert(before.ready@[j] == t);
                                        }
                                    }
                                }
                            }
                        }
                    }
                },
                None => {},
            }
            i = i + 1;
        }
    }

    /// Removes a thread from the table, the ready queue and the core.
    pub fn free(&mut self, tid: usize) -> (r: Result<(), Error>)
        requires
            old(self).wf(),
        ensures
            final(self).wf(),
            r is Err <==> old(self).thread(tid as int) is None,
            r is Err ==> *final(self) == *old(self),
            r is Ok ==> {
                &&& same_memory(*old(self), *final(self))
                &&& final(self).threads_view() == old(self).threads_view().update(tid - 1, None)
                &&& final(self).ready_view() == old(self).ready_view().filter(other_than(tid as Tid))
                &&& final(self).running_view() == if old(self).running_view() == Some(tid as Tid) {
                    None
                } else {
                    old(self).running_view()
                }
            },
    {
        if tid < 1 || tid > self.threads.len() || self.threads[tid - 1].is_none() {
            return Err(Error::ThreadNotFoundError);
        }
        let t = tid as Tid;
        self.unqueue(t);
        if self.running == Some(t) {
            self.running = None;
        }
        let ghost before = *self;
        self.threads.set(tid - 1, None);
        proof {
            assert forall|j: int|
                0 <= j < self.ready@.len() implies {
                let x = #[trigger] self.ready@[j];
                &&& self.thread(x as int) is Some
                &&& self.thread(x as int)->0.status == Status::Runnable
                &&& self.running != Some(x)
            } by {
                let x = self.ready@[j];
                assert(before.ready@.contains(x));
            }
        }
        Ok(())
    }

    /// Ends a thread: wakes every thread blocked in a rendezvous with it,
    /// then removes it.
    pub fn destroy(&mut self, tid: usize) -> (r: Result<(), Error>)
        requires
            old(self).wf(),
        ensures
            final(self).wf(),
            r is Err <==> old(self).thread(tid as int) is None,
            r is Err ==> *final(self) == *old(self),
            r is Ok ==> destroy_effect(*old(self), *final(self), tid as Tid),
    {
        if tid < 1 || tid > self.threads.len() || self.threads[tid - 1].is_none() {
            return Err(Error::ThreadNotFoundError);
        }
        let ghost k0 = *self;
        self.exit_signal(tid as Tid);
        let ghost k1 = *self;
        let r = self.free(tid);
        proof {
            assert forall|t: Tid| t != tid implies (#[trigger] self.ready_view().contains(t) <==> (k0.ready_view().contains(t) || (k0.thread(
                t as int,
            ) matches Some(th) && waits_on(th, tid as Tid) && k0.running_view() != Some(t)))) by {
                lemma_filter_other_than(k1.ready@, tid as Tid, t);
            }
            lemma_filter_other_than(k1.ready@, tid as Tid, tid as Tid);
        }
        r
    }

    /// `itc_receive`: the caller waits for a request.
    pub fn itc_receive(&mut self, caller: Tid) -> (r: SyscallResult)
        requires
            old(self).wf(),
            old(self).thread(caller as int) is Some,
        ensures
            final(self).wf(),
            r == Ok::<SyscallOut, ErrorCode>(SyscallOut::Unit),
            sleep_effect(*old(self), *final(self), caller, Status::WaitForRequest),
    {
        let _ = self.sleep(caller as usize, Status::WaitForRequest);
        Ok(SyscallOut::Unit)
    }

    /// `itc_call`: hands a request to `target` if it waits for one from the
    /// caller, and blocks the caller until the reply.
    pub fn itc_call(&mut self, caller: Tid, target: usize, a: usize, b: usize, c: usize, d: usize) -> (r:
        SyscallResult)
        requires
            old(self).wf(),
            old(self).thread(caller as int) is Some,
        ensures
            final(self).wf(),
            call_effect(*old(self), *final(self), caller, target, a, b, c, d, r),
    {
        let t = match self.lookup(target) {
            None => { return Err(ERROR_INVARG); },
            Some(t) => t,
        };
        if t.tid == caller || !t.receivable(caller) {
            return Err(ERROR_HOLD_ON);
        }
        assert(t.tid == target);
        let ghost k0 = *self;
        self.deliver(t.tid, Ok(SyscallOut::Pentad(caller as usize, a, b, c, d)));
        assert(self.thread(caller as int) == k0.thread(caller as int));
        let me = self.threads[(caller - 1) as usize].unwrap();
        let ghost k1 = *self;
        proof {
            if !(k0.running == Some(t.tid) || k0.ready@.contains(t.tid)) {
                assert(k1.ready@[k1.ready@.len() - 1] == t.tid);
            }
        }
        self.unqueue(caller);
        proof {
            if k1.ready@.contains(t.tid) {
                assert(other_than(caller)(t.tid));
                let j = choose|j: int| 0 <= j < k1.ready@.len() && k1.ready@[j] == t.tid;
                k1.ready@.lemma_filter_contains(other_than(caller), j);
            }
        }
        self.set_thread(Thread { status: Status::WaitForReply, peer: Some(t.tid), ..me });
        proof {
            assert forall|x: int| x != target && x != caller implies #[trigger] self.thread(x) == k0.thread(x) by {
                assert(k1.thread(x) == k0.thread(x));
            }
            assert(self.thread(target as int) == k1.thread(target as int));
            assert(same_memory(k0, *self));
            assert(self.threads_view().len() == k0.threads_view().len());
            assert(self.thread(caller as int) == Some(
                Thread {
                    status: Status::WaitForReply,
                    peer: Some(target as Tid),
                    ..k0.thread(caller as int)->0
                },
            ));
            assert(!self.ready_view().contains(caller));
            assert(self.ready_view().contains(target as Tid) || self.running_view() == Some(target as Tid));
            assert(self.running_view() == k0.running_view());
        }
        Ok(SyscallOut::Unit)
    }

    /// `itc_send`: hands a reply to `target` if it waits for one from the
    /// caller.
    pub fn itc_send(&mut self, caller: Tid, target: usize, a: usize, b: usize, c: usize, d: usize) -> (r:
        SyscallResult)
        requires
            old(self).wf(),
            old(self).thread(caller as int) is Some,
        ensures
            final(self).wf(),
            send_effect(*old(self), *final(self), caller, target, a, b, c, d, r),
    {
        let t = match self.lookup(target) {
            None => { return Err(ERROR_INVARG); },
            Some(t) => t,
        };
        if t.status != Status::WaitForReply || t.peer != Some(caller) {
            return Err(ERROR_DENIED);
        }
        self.deliver(t.tid, Ok(SyscallOut::Pentad(caller as usize, a, b, c, d)));
        Ok(SyscallOut::Unit)
    }

    /// Puts a thread in a blocked state and takes it out of the ready queue.
    pub fn sleep(&mut self, tid: usize, status: Status) -> (r: Result<(), Error>)
        requires
            old(self).wf(),
            status != Status::Runnable,
        ensures
            final(self).wf(),
            r is Err <==> old(self).thread(tid as int) is None,
            r is Err ==> *final(self) == *old(self),
            r is Ok ==> sleep_effect(*old(self), *final(self), tid as Tid, status),
    {
        if tid < 1 || tid > self.threads.len() {
            return Err(Error::ThreadNotFoundError);
        }
        match self.threads[tid - 1] {
            None => Err(Error::ThreadNotFoundError),
            Some(th) => {
                let t = tid as Tid;
                self.unqueue(t);
                self.set_thread(Thread { status, ..th });
                Ok(())
            },
        }
    }

    /// Changes a thread's status, keeping the ready queue in step: a
    /// runnable thread is queued once (unless it runs), any other status
    /// takes it off the queue.
    pub fn set_status(&mut self, tid: usize, status: Status) -> (r: Result<(), Error>)
        requires
            old(self).wf(),
        ensures
            final(self).wf(),
            r is Err <==> old(self).thread(tid as int) is None,
            r is Err ==> *final(self) == *old(self),
            r is Ok && status == Status::Runnable ==> wake_effect(*old(self), *final(self), tid as Tid),
            r is Ok && status != Status::Runnable ==> sleep_effect(*old(self), *final(self), tid as Tid, status),
    {
        if status == Status::Runnable {
            self.wake(tid)
        } else {
            self.sleep(tid, status)
        }
    }

    /// Round robin: the running thread, if still runnable, goes to the back
    /// of the queue, and the head of the queue runs next. With an empty
    /// queue the core idles.
    pub fn schedule(&mut self)
        requires
            old(self).wf(),
        ensures
            final(self).wf(),
            schedule_effect(*old(self), *final(self)),
    {
        let ghost before = *self;
        match self.running {
            Some(r) => {
                let th = self.threads[(r - 1) as usize].unwrap();
                if th.status == Status::Runnable {
                    self.ready.push(r);
                    proof {
                        assert forall|a: int, b: int|
                            0 <= a < b < self.ready@.len() implies #[trigger] self.ready@[a] != #[trigger] self.ready@[b] by {
                            if b == before.ready@.len() {
                                assert(before.ready@[a] == self.ready@[a]);
                            }
                        }
                    }
                }
            },
            None => {},
        }
        let ghost q = self.ready@;
        if self.ready.len() == 0 {
            self.running = None;
        } else {
            let next = self.ready.remove(0);
            self.running = Some(next);
            proof {
                assert forall|j: int|
                    0 <= j < self.ready@.len() implies {
                    let x = #[trigger] self.ready@[j];
                    &&& self.thread(x as int) is Some
                    &&& self.thread(x as int)->0.status == Status::Runnable
                    &&& self.running != Some(x)
                } by {
                    assert(self.ready@[j] == q[j + 1]);
                    if before.running matches Some(r) {
                        if q.len() > before.ready@.len() && j + 1 == before.ready@.len() {
                        } else {
                            assert(q[j + 1] == before.ready@[j + 1]);
                        }
                    }
                }
                assert forall|a: int, b: int|
                    0 <= a < b < self.ready@.len() implies #[trigger] self.ready@[a] != #[trigger] self.ready@[b] by {
                    assert(self.ready@[a] == q[a + 1]);
                    assert(self.ready@[b] == q[b + 1]);
                }
            }
        }
    }

    /// The address space that a request names: 0 names the caller's own.
    pub open spec fn resolve_spec(&self, caller: Tid, asid: usize) -> Option<Asid> {
        if asid == 0 {
            match self.thread(caller as int) {
                Some(th) => match th.kind {
                    Type::User(a) => if self.space(a as int) is Some {
                        Some(a)
                    } else {
                        None
                    },
                    Type::Kernel => None,
                },
                None => None,
            }
        } else if self.space(asid as int) is Some {
            Some(asid as Asid)
        } else {
            None
        }
    }

    fn resolve(&self, caller: Tid, asid: usize) -> (r: Option<Asid>)
        requires
            self.wf(),
        ensures
            r == self.resolve_spec(caller, asid),
            r matches Some(a) ==> self.space(a as int) is Some,
    {
        let a: usize = if asid == 0 {
            match self.lookup(caller as usize) {
                Some(th) => match th.kind {
                    Type::User(a) => a as usize,
                    Type::Kernel => { return None; },
                },
                None => { return None; },
            }
        } else {
            asid
        };
        if a >= 1 && a <= self.spaces.len() && self.spaces[a - 1].is_some() {
            Some(a as Asid)
        } else {
            None
        }
    }

    /// Lowest free address-space slot.
    fn free_asid_slot(&self) -> (r: Option<usize>)
        ensures
            match r {
                None => forall|j: int| 0 <= j < self.spaces@.len() ==> self.spaces@[j] is Some,
                Some(i) => i < self.spaces@.len() && self.spaces@[i as int] is None && forall|
                    j: int,
                | 0 <= j < i ==> self.spaces@[j] is Some,
            },
    {
        let mut i: usize = 0;
        while i < self.spaces.len()
            invariant
                i <= self.spaces@.len(),
                forall|j: int| 0 <= j < i ==> self.spaces@[j] is Some,
            decreases self.spaces@.len() - i,
        {
            if self.spaces[i].is_none() {
                return Some(i);
            }
            i = i + 1;
        }
        None
    }

    /// The id the next address space would get: the lowest free one.
    pub open spec fn lowest_free_asid(&self, a: int) -> bool {
        &&& 1 <= a <= self.spaces_view().len()
        &&& self.space(a) is None
        &&& forall|u: int| 1 <= u < a ==> self.space(u) is Some
    }

    /// Takes the lowest free address-space id and a root-table frame.
    /// Fails with `ERROR_NOMEM` when either is exhausted.
    pub fn address_space_alloc(&mut self) -> (r: Result<Asid, ErrorCode>)
        requires
            old(self).wf(),
        ensures
            final(self).wf(),
            space_alloc_post(*old(self), *final(self), r),
    {
        let i = match self.free_asid_slot() {
            None => { return Err(ERROR_NOMEM); },
            Some(i) => i,
        };
        assert(self.space((i + 1) as int) is None);
        let root = match self.frames.alloc_frame() {
            None => { return Err(ERROR_NOMEM); },
            Some(pa) => pa,
        };
        let ghost before = *self;
        self.spaces.set(i, Some(Space { root }));
        proof {
            assert forall|k: (Asid, usize)| #[trigger] self.pages@.contains_key(k) implies self.frames.is_frame(self.pages@[k].pa as int) by {
                assert(before.frames.is_frame(self.pages@[k].pa as int));
            }
            old(self).frames.lemma_index_in_bounds(root as int);
            old(self).frames.lemma_frame_bounds(root as int);
            self.frames.lemma_frame_bounds(root as int);
            let f = old(self).frames.index_of(root as int);
            let lo = root - old(self).frames.base_spec();
            assert(lo == f * PAGE_SIZE);
            assert forall|k: int| 0 <= k < old(self).frames.bytes().len() && !(lo <= k < lo + PAGE_SIZE)
                implies #[trigger] self.frames.bytes()[k] == old(self).frames.bytes()[k] by {
                assert(!(f * PAGE_SIZE <= k < (f + 1) * PAGE_SIZE));
            }
            assert forall|q: int| old(self).frames_view().is_frame(q) && q != root
                implies #[trigger] self.frames_view().frame_bytes(q) == old(self).frames_view().frame_bytes(q) by {
                old(self).frames.lemma_frame_untouched(self.frames, root as int, q);
            }
        }
        Ok((i + 1) as Asid)
    }

    /// Removes one leaf and drops its frame reference.
    fn unmap_page(&mut self, asid: Asid, va: usize) -> (r: Option<Pte>)
        requires
            old(self).wf(),
        ensures
            final(self).wf(),
            final(self).pages@ == old(self).pages@.remove((asid, va)),
            match r {
                Some(p) => old(self).pages@.contains_key((asid, va)) && old(self).pages@[(asid, va)] == p
                    && final(self).frames.refs() == drop_one(old(self).frames, p.pa),
                None => !old(self).pages@.contains_key((asid, va)) && final(self).frames == old(self).frames,
            },
            final(self).frames.base_spec() == old(self).frames.base_spec(),
            final(self).frames.bytes() == old(self).frames.bytes(),
            final(self).threads == old(self).threads,
            final(self).spaces == old(self).spaces,
            final(self).ready == old(self).ready,
            final(self).running == old(self).running,
            final(self).handlers == old(self).handlers,
            final(self).servers == old(self).servers,
            final(self).console == old(self).console,
    {
        let ghost before = *self;
        match self.pages.remove(asid, va) {
            None => None,
            Some(p) => {
                assert(before.pages@.contains_key((asid, va)));
                self.frames.drop_ref(p.pa);
                proof {
                    assert forall|k: (Asid, usize)| #[trigger] self.pages@.contains_key(k) implies self.frames.is_frame(self.pages@[k].pa as int) by {
                        assert(before.pages@.contains_key(k));
                    }
                }
                Some(p)
            },
        }
    }

    /// `mem_alloc`: maps a fresh zeroed frame at `va`.
    pub fn mem_alloc(&mut self, caller: Tid, asid: usize, va: usize, attr: usize) -> (r: SyscallResult)
        requires
            old(self).wf(),
        ensures
            final(self).wf(),
            mem_alloc_post(*old(self), *final(self), caller, asid, va, attr, r),
    {
        let a = match self.resolve(caller, asid) {
            None => { return Err(ERROR_INVARG); },
            Some(a) => a,
        };
        if va % PAGE_SIZE != 0 || va >= USER_LIMIT {
            return Err(ERROR_INVARG);
        }
        let at = match Attr::from_bits(attr) {
            None => { return Err(ERROR_INVARG); },
            Some(at) => at,
        };
        if self.pages.lookup(a, va).is_some() {
            return Err(ERROR_INVARG);
        }
        let pa = match self.frames.alloc_frame() {
            None => { return Err(ERROR_NOMEM); },
            Some(pa) => pa,
        };
        let ghost before = *self;
        let _ = self.pages.insert(a, va, Pte { pa, attr: at });
        proof {
            let f = old(self).frames.index_of(pa as int);
            let base = old(self).frames.base_spec();
            old(self).frames.lemma_frame_bounds(pa as int);
            self.frames.lemma_frame_bounds(pa as int);
            assert(pa - base == f * PAGE_SIZE);
            assert(self.frames.frame_bytes(pa as int) =~= Seq::new(PAGE_SIZE as nat, |i: int| 0u8)) by {
                assert forall|j: int| 0 <= j < PAGE_SIZE implies #[trigger] self.frames.frame_bytes(pa as int)[j] == 0u8 by {
                    assert(self.frames.bytes()[pa - base + j] == 0u8);
                }
            }
            assert forall|k: (Asid, usize)| #[trigger] self.pages@.contains_key(k) implies self.frames.is_frame(self.pages@[k].pa as int) by {
                if k != (a, va) {
                    assert(before.pages@.contains_key(k));
                }
            }
            assert forall|i: int|
                0 <= i < self.spaces@.len() && #[trigger] self.spaces@[i] is Some implies self.frames.is_frame(
                    self.spaces@[i]->0.root as int) by {
                assert(old(self).frames.is_frame(self.spaces@[i]->0.root as int));
            }
        }
        Ok(SyscallOut::Unit)
    }

    /// `mem_unmap`: removes the leaf at `va` and drops its frame reference.
    pub fn mem_unmap(&mut self, caller: Tid, asid: usize, va: usize) -> (r: SyscallResult)
        requires
            old(self).wf(),
        ensures
            final(self).wf(),
            mem_unmap_post(*old(self), *final(self), caller, asid, va, r),
    {
        let a = match self.resolve(caller, asid) {
            None => { return Err(ERROR_INVARG); },
            Some(a) => a,
        };
        if va % PAGE_SIZE != 0 || va >= USER_LIMIT || self.pages.lookup(a, va).is_none() {
            return Err(ERROR_INVARG);
        }
        let _ = self.unmap_page(a, va);
        Ok(SyscallOut::Unit)
    }

    /// `mem_map`: maps the frame behind `src_va` in `src_asid` at `dst_va`
    /// in `dst_asid`, with attributes `attr`, taking one reference on the
    /// frame. The same leaf already there is kept as it is; a different one
    /// makes the call fail with `ERROR_INVARG`, as `PageMap::insert` refuses
    /// it with `AlreadyMapped`.
    pub fn mem_map(
        &mut self,
        caller: Tid,
        src_asid: usize,
        src_va: usize,
        dst_asid: usize,
        dst_va: usize,
        attr: usize,
    ) -> (r: SyscallResult)
        requires
            old(self).wf(),
        ensures
            final(self).wf(),
            mem_map_post(*old(self), *final(self), caller, src_asid, src_va, dst_asid, dst_va, attr, r),
    {
        let s = match self.resolve(caller, src_asid) {
            None => { return Err(ERROR_INVARG); },
            Some(a) => a,
        };
        let d = match self.resolve(caller, dst_asid) {
            None => { return Err(ERROR_INVARG); },
            Some(a) => a,
        };
        if src_va % PAGE_SIZE != 0 || src_va >= USER_LIMIT || dst_va % PAGE_SIZE != 0 || dst_va >= USER_LIMIT {
            return Err(ERROR_INVARG);
        }
        let at = match Attr::from_bits(attr) {
            None => { return Err(ERROR_INVARG); },
            Some(at) => at,
        };
        let src = match self.pages.lookup(s, src_va) {
            None => { return Err(ERROR_INVARG); },
            Some(p) => p,
        };
        let new_pte = Pte { pa: src.pa, attr: at };
        match self.pages.lookup(d, dst_va) {
            Some(p) => {
                if p.pa == src.pa && p.attr.to_bits() == attr {
                    proof { lemma_attr_bits_injective(); }
                    return Ok(SyscallOut::Unit);
                }
                return Err(ERROR_INVARG);
            },
            None => {},
        }
        assert(self.frames.is_frame(src.pa as int));
        let ghost k0 = *self;
        if !self.frames.clone_ref(src.pa) {
            return Err(ERROR_NOMEM);
        }
        let _ = self.pages.insert(d, dst_va, new_pte);
        proof {
            assert forall|k: (Asid, usize)| #[trigger] self.pages@.contains_key(k) implies self.frames.is_frame(self.pages@[k].pa as int) by {
                if k != (d, dst_va) {
                    assert(k0.pages@.contains_key(k));
                }
                assert(k0.frames.is_frame(self.pages@[k].pa as int));
            }
            assert forall|i: int|
                0 <= i < self.spaces@.len() && #[trigger] self.spaces@[i] is Some implies self.frames.is_frame(
                    self.spaces@[i]->0.root as int) by {
                assert(k0.frames.is_frame(self.spaces@[i]->0.root as int));
            }
            assert forall|k: (Asid, usize)| #[trigger] self.pages@.contains_key(k) implies self.space(k.0 as int) is Some by {
                if k != (d, dst_va) {
                    assert(k0.pages@.contains_key(k));
                }
            }
            assert forall|k: (Asid, usize)| #[trigger] self.pages@.contains_key(k) implies user_page(k.1 as int) by {
                if k != (d, dst_va) {
                    assert(k0.pages@.contains_key(k));
                }
            }
            assert(self.pages@ =~= k0.pages@.insert((d, dst_va), new_pte));
        }
        Ok(SyscallOut::Unit)
    }

    /// Tears an address space down: removes every leaf (dropping its frame
    /// reference), ends every thread bound to it, frees its root frame and
    /// its id.
    pub fn address_space_destroy(&mut self, asid: usize) -> (r: Result<(), ErrorCode>)
        requires
            old(self).wf(),
        ensures
            final(self).wf(),
            address_space_destroy_post(*old(self), *final(self), asid, r),
    {
        if asid < 1 || asid > self.spaces.len() {
            return Err(ERROR_INVARG);
        }
        let root = match self.spaces[asid - 1] {
            None => { return Err(ERROR_INVARG); },
            Some(sp) => sp.root,
        };
        let a = asid as Asid;
        let ghost k0 = *self;
        let list = self.pages.mappings_of(a);
        let mut i: usize = 0;
        while i < list.len()
            invariant
                self.wf(),
                i <= list@.len(),
                self.spaces == k0.spaces,
                self.threads == k0.threads,
                self.frames.base_spec() == k0.frames.base_spec(),
                self.frames.frame_count() == k0.frames.frame_count(),
                forall|k: (Asid, usize)| #[trigger] self.pages@.contains_key(k) ==> k0.pages@.contains_key(k)
                    && self.pages@[k] == k0.pages@[k],
                forall|k: (Asid, usize)| k.0 != a && #[trigger] k0.pages@.contains_key(k) ==> self.pages@.contains_key(k),
                forall|j: int| 0 <= j < i ==> !self.pages@.contains_key((a, #[trigger] list@[j].0)),
                forall|j: int| i <= j < list@.len() ==> self.pages@.contains_key((a, #[trigger] list@[j].0)),
                forall|x: int, y: int| 0 <= x < y < list@.len() ==> #[trigger] list@[x].0 != #[trigger] list@[y].0,
                forall|j: int| 0 <= j < list@.len() ==> #[trigger] k0.pages@.contains_key((a, list@[j].0))
                    && k0.pages@[(a, list@[j].0)] == list@[j].1,
                self.frames.bytes() == k0.frames.bytes(),
                self.frames.refs() == drop_list(k0.frames.refs(), k0.frames, list@.subrange(0, i as int)),
            decreases list@.len() - i,
        {
            let va = list[i].0;
            let ghost before = *self;
            let _ = self.unmap_page(a, va);
            proof {
                let pre = list@.subrange(0, i + 1);
                assert(pre.drop_last() =~= list@.subrange(0, i as int));
                assert(pre.last() == list@[i as int]);
                assert(before.pages@.contains_key((a, va)));
                assert forall|j: int| i + 1 <= j < list@.len() implies self.pages@.contains_key((a, #[trigger] list@[j].0)) by {
                    assert(list@[j].0 != list@[i as int].0);
                    assert(before.pages@.contains_key((a, list@[j].0)));
                }
            }
            i = i + 1;
        }
        proof {
            assert(list@.subrange(0, list@.len() as int) =~= list@);
            assert(leaves_of(k0, a, list@));
        }
        proof {
            assert forall|k: (Asid, usize)| #[trigger] self.pages@.contains_key(k) implies k.0 != a by {
                if k.0 == a {
                    assert(k0.pages@.contains_key((a, k.1)));
                    let j = choose|j: int| 0 <= j < list@.len() && list@[j].0 == k.1;
                    assert(!self.pages@.contains_key((a, list@[j].0)));
                }
            }
        }
        let ghost k1 = *self;
        let n = self.threads.len();
        let mut t: usize = 1;
        while t <= n
            invariant
                self.wf(),
                1 <= t <= n + 1,
                n == self.threads@.len(),
                n == k1.threads@.len(),
                same_memory(k1, *self),
                forall|x: int| #[trigger] self.thread(x) is Some ==> self.thread(x)->0.kind == k1.thread(x)->0.kind,
                forall|x: int| #[trigger] self.thread(x) is Some <==> (k1.thread(x) is Some
                    && !(x < t && k1.thread(x)->0.kind == Type::User(a))),
            decreases n + 1 - t,
        {
            match self.threads[t - 1] {
                Some(th) => {
                    if th.kind == Type::User(a) {
                        let ghost before = *self;
                        let _ = self.destroy(t);
                        proof {
                            assert forall|x: int| #[trigger] self.thread(x) is Some implies self.thread(x)->0.kind == k1.thread(x)->0.kind by {
                                assert(before.thread(x) is Some);
                            }
                        }
                    }
                },
                None => {},
            }
            t = t + 1;
        }
        let ghost k2 = *self;
        self.frames.drop_ref(root);
        assert(self.frames.refs() == drop_at(k2.frames.refs(), k0.frames.index_of(root as int)));
        self.spaces.set(asid - 1, None);
        proof {
            assert forall|k: (Asid, usize)| #[trigger] self.pages@.contains_key(k) implies self.frames.is_frame(self.pages@[k].pa as int) by {
                assert(k2.frames.is_frame(self.pages@[k].pa as int));
            }
            assert forall|j: int|
                0 <= j < self.spaces@.len() && #[trigger] self.spaces@[j] is Some implies self.frames.is_frame(
                    self.spaces@[j]->0.root as int) by {
                assert(k2.frames.is_frame(self.spaces@[j]->0.root as int));
            }
            assert forall|x: int| #[trigger] self.thread(x) is Some <==> (k0.thread(x) is Some
                && k0.thread(x)->0.kind != Type::User(a)) by {
                assert(k1.thread(x) == k0.thread(x));
                assert(self.thread(x) == k2.thread(x));
                if k1.thread(x) is Some {
                    assert(x < t);
                }
            }
        }
        Ok(())
    }

    /// Resolves a write fault on a copy-on-write leaf: a frame that others
    /// still reference is copied into a fresh frame, which is then mapped
    /// writable; a frame held by this leaf alone is just made writable.
    /// Returns whether the fault was handled.
    pub fn page_fault(&mut self, asid: Asid, va: usize, write: bool) -> (r: bool)
        requires
            old(self).wf(),
        ensures
            final(self).wf(),
            !r ==> *final(self) == *old(self),
            ({
                let page = (va - va % PAGE_SIZE) as usize;
                let key = (asid, page);
                &&& r ==> write && old(self).pages_view()@.contains_key(key)
                    && old(self).pages_view()@[key].attr.copy_on_write
                &&& (write && old(self).pages_view()@.contains_key(key) && old(self).pages_view()@[key].attr.copy_on_write
                    && (old(self).frames_view().refs()[old(self).frames_view().index_of(old(self).pages_view()@[key].pa as int)] <= 1
                        || old(self).frames_view().free_spec() > 0)) ==> r
                &&& r ==> cow_effect(*old(self), *final(self), key)
            }),
    {
        let page = va - va % PAGE_SIZE;
        let p = match self.pages.lookup(asid, page) {
            None => { return false; },
            Some(p) => p,
        };
        if !write || !p.attr.copy_on_write {
            return false;
        }
        let attr = Attr { writable: true, copy_on_write: false, ..p.attr };
        let ghost k0 = *self;
        assert(self.frames.is_frame(p.pa as int));
        if self.frames.refcount(p.pa) <= 1 {
            let _ = self.pages.remove(asid, page);
            let _ = self.pages.insert(asid, page, Pte { pa: p.pa, attr });
            proof {
                assert forall|k: (Asid, usize)| #[trigger] self.pages@.contains_key(k) implies self.frames.is_frame(self.pages@[k].pa as int) by {
                    if k != (asid, page) {
                        assert(k0.pages@.contains_key(k));
                    }
                }
                assert(self.pages@ =~= k0.pages@.insert((asid, page), Pte { pa: p.pa, attr }));
            }
            return true;
        }
        let fresh = match self.frames.alloc_frame() {
            None => { return false; },
            Some(pa) => pa,
        };
        let ghost k1 = *self;
        assert(self.wf()) by {
            assert forall|k: (Asid, usize)| #[trigger] self.pages@.contains_key(k) implies self.frames.is_frame(self.pages@[k].pa as int) by {
                assert(k0.frames.is_frame(self.pages@[k].pa as int));
            }
            assert forall|i: int|
                0 <= i < self.spaces@.len() && #[trigger] self.spaces@[i] is Some implies self.frames.is_frame(
                    self.spaces@[i]->0.root as int) by {
                assert(k0.frames.is_frame(self.spaces@[i]->0.root as int));
            }
        }
        self.frames.copy_frame(p.pa, fresh);
        let ghost k2 = *self;
        assert(self.wf()) by {
            assert forall|k: (Asid, usize)| #[trigger] self.pages@.contains_key(k) implies self.frames.is_frame(self.pages@[k].pa as int) by {
                assert(k1.frames.is_frame(self.pages@[k].pa as int));
            }
            assert forall|i: int|
                0 <= i < self.spaces@.len() && #[trigger] self.spaces@[i] is Some implies self.frames.is_frame(
                    self.spaces@[i]->0.root as int) by {
                assert(k1.frames.is_frame(self.spaces@[i]->0.root as int));
            }
        }
        let _ = self.unmap_page(asid, page);
        let ghost k3 = *self;
        let _ = self.pages.insert(asid, page, Pte { pa: fresh, attr });
        proof {
            assert forall|k: (Asid, usize)| #[trigger] self.pages@.contains_key(k) implies self.frames.is_frame(self.pages@[k].pa as int) by {
                if k != (asid, page) {
                    assert(k3.pages@.contains_key(k));
                }
            }
            assert(self.pages@ =~= k0.pages@.insert((asid, page), Pte { pa: fresh, attr }));
            let base = k0.frames.base_spec();
            let s = p.pa - base;
            let d = fresh - base;
            lemma_frames_apart(k0.frames, p.pa as int, fresh as int);
            k0.frames.lemma_index_in_bounds(p.pa as int);
            k0.frames.lemma_index_in_bounds(fresh as int);
            let fo = k0.frames.index_of(p.pa as int);
            let fnew = k0.frames.index_of(fresh as int);
            assert(fo != fnew);
            crate::frame::lemma_count_free_update(k2.frames.refs(), fo, (k2.frames.refs()[fo] - 1) as u32);
            assert(self.frames.refs() =~= k0.frames.refs().update(fnew, 1).update(fo, (k0.frames.refs()[fo] - 1) as u32));
            k0.frames.lemma_frame_bounds(p.pa as int);
            k0.frames.lemma_frame_bounds(fresh as int);
            k1.frames.lemma_frame_bounds(fresh as int);
            k2.frames.lemma_frame_bounds(fresh as int);
            assert(self.frames.bytes() == k2.frames.bytes());
            assert(d == k0.frames.index_of(fresh as int) * PAGE_SIZE);
            assert(self.frames.frame_bytes(fresh as int) =~= k0.frames.frame_bytes(p.pa as int)) by {
                assert forall|j: int| 0 <= j < PAGE_SIZE implies #[trigger] self.frames.frame_bytes(fresh as int)[j]
                    == k0.frames.frame_bytes(p.pa as int)[j] by {
                    assert(self.frames.bytes()[d + j] == k2.frames.bytes()[d + j]);
                    assert(k2.frames.bytes()[d + j] == k1.frames.bytes()[s + j]);
                    assert(k1.frames.bytes()[s + j] == k0.frames.bytes()[s + j]);
                }
            }
            assert(self.frames.frame_bytes(p.pa as int) =~= k0.frames.frame_bytes(p.pa as int)) by {
                assert forall|j: int| 0 <= j < PAGE_SIZE implies #[trigger] self.frames.frame_bytes(p.pa as int)[j]
                    == k0.frames.frame_bytes(p.pa as int)[j] by {
                    assert(self.frames.bytes()[s + j] == k2.frames.bytes()[s + j]);
                    assert(k2.frames.bytes()[s + j] == k1.frames.bytes()[s + j]);
                }
            }
            assert forall|k: int| 0 <= k < k0.frames.bytes().len() && !(d <= k < d + PAGE_SIZE)
                implies #[trigger] self.frames.bytes()[k] == k0.frames.bytes()[k] by {
                assert(self.frames.bytes()[k] == k2.frames.bytes()[k]);
                assert(k2.frames.bytes()[k] == k1.frames.bytes()[k]);
                assert(!(fnew * PAGE_SIZE <= k < (fnew + 1) * PAGE_SIZE));
            }
            assert forall|q: int| k0.frames.is_frame(q) && q != fresh
                implies #[trigger] self.frames.frame_bytes(q) == k0.frames.frame_bytes(q) by {
                k0.frames.lemma_frame_untouched(self.frames, fresh as int, q);
            }
        }
        true
    }

    /// The byte that a read of `va` in `asid` sees, if `va` is mapped.
    pub open spec fn read_spec(&self, asid: Asid, va: usize) -> Option<u8> {
        let page = (va - va % PAGE_SIZE) as usize;
        if self.pages_view()@.contains_key((asid, page)) {
            Some(self.frames_view().byte_at(self.pages_view()@[(asid, page)].pa + va % PAGE_SIZE))
        } else {
            None
        }
    }

    /// Reads the byte at user address `va` of `asid`.
    pub fn user_read(&self, asid: Asid, va: usize) -> (r: Option<u8>)
        requires
            self.wf(),
        ensures
            r == self.read_spec(asid, va),
    {
        let page = va - va % PAGE_SIZE;
        match self.pages.lookup(asid, page) {
            None => None,
            Some(p) => {
                assert(self.frames.is_frame(p.pa as int));
                proof { self.frames.lemma_frame_bounds(p.pa as int); }
                Some(self.frames.read_byte(p.pa + va % PAGE_SIZE))
            },
        }
    }

    /// Writes the byte at user address `va` of `asid`, resolving a
    /// copy-on-write fault first. Fails on an unmapped or read-only page.
    pub fn user_write(&mut self, asid: Asid, va: usize, v: u8) -> (r: bool)
        requires
            old(self).wf(),
        ensures
            final(self).wf(),
            !r ==> *final(self) == *old(self),
            r ==> final(self).read_spec(asid, va) == Some(v),
            ({
                let page = (va - va % PAGE_SIZE) as usize;
                let key = (asid, page);
                let p = old(self).pages_view()@[key];
                &&& r == (old(self).pages_view()@.contains_key(key) && (p.attr.writable || (p.attr.copy_on_write
                    && (old(self).frames_view().refs()[old(self).frames_view().index_of(p.pa as int)] <= 1
                    || old(self).frames_view().free_spec() > 0))))
                &&& r ==> forall|q: int| old(self).frames_view().is_frame(q) && q != final(self).pages_view()@[key].pa
                    ==> #[trigger] final(self).frames_view().frame_bytes(q) == old(self).frames_view().frame_bytes(q)
                &&& r ==> forall|k: (Asid, usize)| k != key ==> (#[trigger] final(self).pages_view()@.contains_key(k)
                    <==> old(self).pages_view()@.contains_key(k))
                &&& r ==> forall|k: (Asid, usize)| k != key && #[trigger] final(self).pages_view()@.contains_key(k)
                    ==> final(self).pages_view()@[k] == old(self).pages_view()@[k]
                &&& (r && old(self).pages_view()@[key].attr.copy_on_write && !old(self).pages_view()@[key].attr.writable
                    && old(self).frames_view().refs()[old(self).frames_view().index_of(old(self).pages_view()@[key].pa as int)] > 1)
                    ==> final(self).frames_view().frame_bytes(old(self).pages_view()@[key].pa as int)
                        == old(self).frames_view().frame_bytes(old(self).pages_view()@[key].pa as int)
            }),
    {
        let page = va - va % PAGE_SIZE;
        let p = match self.pages.lookup(asid, page) {
            None => { return false; },
            Some(p) => p,
        };
        let ghost k0 = *self;
        let target = if p.attr.writable {
            p
        } else if p.attr.copy_on_write {
            if !self.page_fault(asid, va, true) {
                return false;
            }
            self.pages.lookup(asid, page).unwrap()
        } else {
            return false;
        };
        let ghost k1 = *self;
        assert(self.frames.is_frame(target.pa as int));
        proof { self.frames.lemma_frame_bounds(target.pa as int); }
        let ghost kw = *self;
        self.frames.write_byte(target.pa + va % PAGE_SIZE, v);
        proof {
            assert forall|k: (Asid, usize)| #[trigger] self.pages@.contains_key(k) implies self.frames.is_frame(self.pages@[k].pa as int) by {
                assert(k1.frames.is_frame(self.pages@[k].pa as int));
            }
            assert forall|i: int|
                0 <= i < self.spaces@.len() && #[trigger] self.spaces@[i] is Some implies self.frames.is_frame(
                    self.spaces@[i]->0.root as int) by {
                assert(k1.frames.is_frame(self.spaces@[i]->0.root as int));
            }
            let off = target.pa - kw.frames.base_spec();
            assert forall|k: int| 0 <= k < kw.frames.bytes().len() && !(off <= k < off + PAGE_SIZE)
                implies #[trigger] self.frames.bytes()[k] == kw.frames.bytes()[k] by {}
            assert forall|q: int| old(self).frames_view().is_frame(q) && q != self.pages_view()@[(asid, page)].pa
                implies #[trigger] self.frames_view().frame_bytes(q) == old(self).frames_view().frame_bytes(q) by {
                kw.frames.lemma_frame_untouched(self.frames, target.pa as int, q);
                assert(kw.frames.frame_bytes(q) == old(self).frames.frame_bytes(q));
            }
            if !p.attr.writable && k0.frames.refs()[k0.frames.index_of(p.pa as int)] > 1 {
                lemma_frames_apart(k0.frames, p.pa as int, target.pa as int);
                k0.frames.lemma_frame_bounds(p.pa as int);
                let s = p.pa - k0.frames.base_spec();
                assert(self.frames.frame_bytes(p.pa as int) =~= k1.frames.frame_bytes(p.pa as int)) by {
                    assert forall|j: int| 0 <= j < PAGE_SIZE implies #[trigger] self.frames.frame_bytes(p.pa as int)[j]
                        == k1.frames.frame_bytes(p.pa as int)[j] by {
                        assert(self.frames.bytes()[s + j] == k1.frames.bytes()[s + j]);
                    }
                }
            }
        }
        true
    }

    /// Replaces the saved register file of a live thread.
    pub fn set_context(&mut self, tid: Tid, ctx: ContextFrame)
        requires
            old(self).wf(),
            old(self).thread(tid as int) is Some,
        ensures
            final(self).wf(),
            same_memory(*old(self), *final(self)),
            final(self).threads_view() == old(self).threads_view().update(
                tid - 1,
                Some(Thread { context: ctx, ..old(self).thread(tid as int)->0 }),
            ),
            final(self).ready_view() == old(self).ready_view(),
            final(self).running_view() == old(self).running_view(),
    {
        let th = self.threads[(tid - 1) as usize].unwrap();
        proof {
            if th.status != Status::Runnable && self.ready@.contains(tid) {
                let j = choose|j: int| 0 <= j < self.ready@.len() && self.ready@[j] == tid;
            }
        }
        self.set_thread(Thread { context: ctx, ..th });
    }

    /// Appends one byte to the console output.
    pub fn console_put(&mut self, c: u8)
        requires
            old(self).wf(),
        ensures
            final(self).wf(),
            console_put_post(*old(self), *final(self), c, ()),
    {
        self.console.push(c);
    }

    /// Hands out the console output written so far and clears it.
    pub fn console_take(&mut self) -> (r: Vec<u8>)
        requires
            old(self).wf(),
        ensures
            final(self).wf(),
            r@ == old(self).console_view(),
            final(self).console_view().len() == 0,
            final(self).frames_view() == old(self).frames_view(),
            final(self).pages_view() == old(self).pages_view(),
            final(self).spaces_view() == old(self).spaces_view(),
            final(self).threads_view() == old(self).threads_view(),
            final(self).ready_view() == old(self).ready_view(),
            final(self).running_view() == old(self).running_view(),
            final(self).handlers_view() == old(self).handlers_view(),
            final(self).servers_view() == old(self).servers_view(),
    {
        let mut out: Vec<u8> = Vec::new();
        std::mem::swap(&mut out, &mut self.console);
        out
    }

    /// The handler registered for `irq` in `asid`, if any.
    pub fn handler_for(&self, irq: usize, asid: Option<Asid>) -> (r: Option<EventHandler>)
        ensures
            match r {
                Some(h) => exists|i: int| #![trigger self.handlers_view()[i]]
                    0 <= i < self.handlers_view().len() && self.handlers_view()[i] == h && h.irq == irq
                    && (asid matches Some(a) ==> h.asid == a) && forall|j: int| 0 <= j < i ==> !(
                    #[trigger] self.handlers_view()[j].irq == irq && (asid matches Some(a)
                    ==> self.handlers_view()[j].asid == a)),
                None => forall|i: int| 0 <= i < self.handlers_view().len() ==> !(#[trigger] self.handlers_view()[i].irq == irq
                    && (asid matches Some(a) ==> self.handlers_view()[i].asid == a)),
            },
    {
        let mut i: usize = 0;
        while i < self.handlers.len()
            invariant
                i <= self.handlers@.len(),
                forall|j: int| 0 <= j < i ==> !(#[trigger] self.handlers@[j].irq == irq
                    && (asid matches Some(a) ==> self.handlers@[j].asid == a)),
            decreases self.handlers@.len() - i,
        {
            let h = self.handlers[i];
            let hit = match asid {
                Some(a) => h.irq == irq && h.asid == a,
                None => h.irq == irq,
            };
            if hit {
                assert(self.handlers_view()[i as int] == h);
                return Some(h);
            }
            i = i + 1;
        }
        None
    }

    /// Records `h`. It replaces the handler of its interrupt line; on the
    /// page-fault line it replaces the handler of its own address space.
    pub fn register_handler(&mut self, h: EventHandler)
        requires
            old(self).wf(),
        ensures
            final(self).wf(),
            final(self).handlers_view().contains(h),
            forall|i: int| 0 <= i < final(self).handlers_view().len() ==> {
                let x = #[trigger] final(self).handlers_view()[i];
                x == h || (old(self).handlers_view().contains(x) && !replaces(h, x))
            },
            forall|x: EventHandler| #[trigger] old(self).handlers_view().contains(x) && !replaces(h, x)
                ==> final(self).handlers_view().contains(x),
            final(self).frames_view() == old(self).frames_view(),
            final(self).pages_view() == old(self).pages_view(),
            final(self).spaces_view() == old(self).spaces_view(),
            final(self).threads_view() == old(self).threads_view(),
            final(self).ready_view() == old(self).ready_view(),
            final(self).running_view() == old(self).running_view(),
            final(self).servers_view() == old(self).servers_view(),
            final(self).console_view() == old(self).console_view(),
    {
        let mut out: Vec<EventHandler> = Vec::new();
        let mut i: usize = 0;
        while i < self.handlers.len()
            invariant
                i <= self.handlers@.len(),
                forall|k: int| 0 <= k < out@.len() ==> {
                    let x = #[trigger] out@[k];
                    self.handlers@.contains(x) && !replaces(h, x)
                },
                forall|j: int| 0 <= j < i && !replaces(h, self.handlers@[j]) ==> out@.contains(#[trigger] self.handlers@[j]),
            decreases self.handlers@.len() - i,
        {
            let x = self.handlers[i];
            let ghost prev = out@;
            if !(x.irq == h.irq && (h.irq != FAULT_EVENT || x.asid == h.asid)) {
                out.push(x);
                proof {
                    assert forall|j: int| 0 <= j < i + 1 && !replaces(h, self.handlers@[j]) implies out@.contains(#[trigger] self.handlers@[j]) by {
                        if j == i {
                            assert(out@[out@.len() - 1] == x);
                        } else {
                            let m = choose|m: int| 0 <= m < prev.len() && prev[m] == self.handlers@[j];
                            assert(out@[m] == prev[m]);
                        }
                    }
                }
            }
            i = i + 1;
        }
        let ghost before = out@;
        out.push(h);
        assert(out@[out@.len() - 1] == h);
        proof {
            assert forall|x: EventHandler| #[trigger] self.handlers@.contains(x) && !replaces(h, x) implies out@.contains(x) by {
                let j = choose|j: int| 0 <= j < self.handlers@.len() && self.handlers@[j] == x;
                assert(before.contains(self.handlers@[j]));
                let m = choose|m: int| 0 <= m < before.len() && before[m] == x;
                assert(out@[m] == x);
            }
        }
        self.handlers = out;
    }

    /// The thread registered as server `name`, if any.
    pub fn server_lookup(&self, name: usize) -> (r: Option<Tid>)
        ensures
            match r {
                Some(t) => self.servers_view().contains((name, t)),
                None => forall|i: int| 0 <= i < self.servers_view().len() ==> (#[trigger] self.servers_view()[i]).0 != name,
            },
    {
        let mut i: usize = 0;
        while i < self.servers.len()
            invariant
                i <= self.servers@.len(),
                forall|j: int| 0 <= j < i ==> (#[trigger] self.servers@[j]).0 != name,
            decreases self.servers@.len() - i,
        {
            if self.servers[i].0 == name {
                return Some(self.servers[i].1);
            }
            i = i + 1;
        }
        None
    }

    /// Registers `tid` as server `name`, replacing an earlier registration.
    pub fn server_register(&mut self, name: usize, tid: Tid)
        requires
            old(self).wf(),
        ensures
            final(self).wf(),
            server_register_post(*old(self), *final(self), name, tid, ()),
    {
        let mut out: Vec<(usize, Tid)> = Vec::new();
        let mut i: usize = 0;
        while i < self.servers.len()
            invariant
                i <= self.servers@.len(),
                forall|k: int| 0 <= k < out@.len() ==> {
                    let x = #[trigger] out@[k];
                    self.servers@.contains(x) && x.0 != name
                },
            decreases self.servers@.len() - i,
        {
            let x = self.servers[i];
            if x.0 != name {
                out.push(x);
            }
            i = i + 1;
        }
        out.push((name, tid));
        assert(out@[out@.len() - 1] == (name, tid));
        self.servers = out;
    }

    /// The address space that a request names: 0 names the caller's own.
    pub fn resolve_public(&self, caller: Tid, asid: usize) -> (r: Option<Asid>)
        requires
            self.wf(),
        ensures
            r == self.resolve_spec(caller, asid),
    {
        self.resolve(caller, asid)
    }

    /// What well-formedness tells a caller: ids fit in 16 bits, a thread
    /// sits in the slot of its id, and the running thread is live.
    pub proof fn lemma_wf(&self)
        requires
            self.wf(),
        ensures
            self.threads_view().len() <= MAX_IDS,
            self.spaces_view().len() <= MAX_IDS,
            forall|t: int| #[trigger] self.thread(t) is Some ==> self.thread(t)->0.tid == t && 1 <= t <= MAX_IDS,
            self.running_view() matches Some(r) ==> self.thread(r as int) is Some,
            forall|k: (Asid, usize)| #[trigger] self.pages_view()@.contains_key(k) ==> self.space(k.0 as int) is Some,
            forall|k: (Asid, usize)| #[trigger] self.pages_view()@.contains_key(k) ==> user_page(k.1 as int),
            self.frames_view().wf(),
    {
        assert forall|k: (Asid, usize)| #[trigger] self.pages_view()@.contains_key(k) implies user_page(k.1 as int) by {
            assert(self.pages@.contains_key(k));
        }
        assert forall|k: (Asid, usize)| #[trigger] self.pages_view()@.contains_key(k) implies self.space(k.0 as int) is Some by {
            assert(self.pages@.contains_key(k));
        }
        assert forall|t: int| #[trigger] self.thread(t) is Some implies self.thread(t)->0.tid == t && 1 <= t <= MAX_IDS by {
            assert(self.threads@[t - 1] is Some);
        }
    }

    /// Every leaf maps a frame of the allocator.
    pub proof fn lemma_mapped_frame(&self, asid: Asid, va: usize)
        requires
            self.wf(),
            self.pages_view()@.contains_key((asid, va)),
        ensures
            self.frames_view().is_frame(self.pages_view()@[(asid, va)].pa as int),
    {
        assert(self.pages@.contains_key((asid, va)));
    }

    /// A thread in the ready queue is runnable and not running.
    pub proof fn lemma_queued_are_runnable(&self, t: Tid)
        requires
            self.wf(),
            self.ready_view().contains(t),
        ensures
            self.thread(t as int) is Some,
            self.thread(t as int)->0.status == Status::Runnable,
            self.running_view() != Some(t),
    {
        let j = choose|j: int| 0 <= j < self.ready@.len() && self.ready@[j] == t;
        assert(self.ready@[j] == t);
    }

    /// Hands the core to thread `t` if it is ready; the running thread, if
    /// still runnable, goes to the back of the queue.
    pub fn switch_to(&mut self, t: Tid)
        requires
            old(self).wf(),
        ensures
            final(self).wf(),
            same_memory(*old(self), *final(self)),
            final(self).threads_view() == old(self).threads_view(),
            !old(self).ready_view().contains(t) ==> *final(self) == *old(self),
            old(self).ready_view().contains(t) ==> final(self).running_view() == Some(t),
    {
        if !self.ready_contains(t) {
            return;
        }
        let ghost k0 = *self;
        proof { k0.lemma_queued_are_runnable(t); }
        match self.running {
            Some(r) => {
                let th = self.threads[(r - 1) as usize].unwrap();
                self.unqueue(t);
                self.running = None;
                if th.status == Status::Runnable {
                    self.enqueue(r);
                }
            },
            None => {
                self.unqueue(t);
            },
        }
        self.running = Some(t);
        proof {
            assert forall|j: int|
                0 <= j < self.ready@.len() implies {
                let x = #[trigger] self.ready@[j];
                &&& self.thread(x as int) is Some
                &&& self.thread(x as int)->0.status == Status::Runnable
                &&& self.running != Some(x)
            } by {
                let x = self.ready@[j];
                if x == t {
                    assert(self.ready@.contains(t));
                }
            }
        }
    }

    /// Number of free frames.
    pub fn free_frames(&self) -> (r: usize)
        requires
            self.wf(),
        ensures
            r == self.frames_view().free_spec(),
    {
        self.frames.free_count()
    }

    /// The reference count of the frame at `pa`, if it is one.
    pub fn frame_refcount(&self, pa: usize) -> (r: Option<u32>)
        requires
            self.wf(),
        ensures
            match r {
                Some(c) => self.frames_view().is_frame(pa as int) && c == self.frames_view().refs()[self.frames_view().index_of(pa as int)],
                None => !self.frames_view().is_frame(pa as int),
            },
    {
        if self.frames.owns(pa) {
            Some(self.frames.refcount(pa))
        } else {
            None
        }
    }

    /// The leaf that maps page `va` of `asid`.
    pub fn lookup_page(&self, asid: Asid, va: usize) -> (r: Option<Pte>)
        requires
            self.wf(),
        ensures
            match r {
                Some(p) => self.pages_view()@.contains_key((asid, va)) && self.pages_view()@[(asid, va)] == p,
                None => !self.pages_view()@.contains_key((asid, va)),
            },
    {
        self.pages.lookup(asid, va)
    }

    /// Every leaf of `asid`, each page once.
    pub fn traverse(&self, asid: Asid) -> (r: Vec<(usize, Pte)>)
        requires
            self.wf(),
        ensures
            forall|i: int|
                0 <= i < r@.len() ==> #[trigger] self.pages_view()@.contains_key((asid, r@[i].0)) && self.pages_view()@[(
                asid,
                r@[i].0,
            )] == r@[i].1,
            forall|va: usize|
                #[trigger] self.pages_view()@.contains_key((asid, va)) ==> exists|i: int|
                    0 <= i < r@.len() && r@[i].0 == va,
            forall|i: int, j: int| 0 <= i < j < r@.len() ==> #[trigger] r@[i].0 != #[trigger] r@[j].0,
    {
        let r = self.pages.mappings_of(asid);
        proof {
            assert forall|i: int| 0 <= i < r@.len() implies #[trigger] self.pages_view()@.contains_key((asid, r@[i].0))
                && self.pages_view()@[(asid, r@[i].0)] == r@[i].1 by {
                assert(self.pages@.contains_key((asid, r@[i].0)));
            }
            assert forall|va: usize| #[trigger] self.pages_view()@.contains_key((asid, va)) implies exists|i: int|
                0 <= i < r@.len() && r@[i].0 == va by {
                assert(self.pages@.contains_key((asid, va)));
            }
        }
        r
    }

    /// Whether address space `asid` is live.
    pub fn space_live(&self, asid: usize) -> (r: bool)
        requires
            self.wf(),
        ensures
            r == self.space(asid as int) is Some,
    {
        asid >= 1 && asid <= self.spaces.len() && self.spaces[asid - 1].is_some()
    }

    /// Lowest free thread slot.
    fn free_tid_slot(&self) -> (r: Option<usize>)
        ensures
            match r {
                None => forall|j: int| 0 <= j < self.threads@.len() ==> self.threads@[j] is Some,
                Some(i) => i < self.threads@.len() && self.threads@[i as int] is None && forall|
                    j: int,
                | 0 <= j < i ==> self.threads@[j] is Some,
            },
    {
        let mut i: usize = 0;
        while i < self.threads.len()
            invariant
                i <= self.threads@.len(),
                forall|j: int| 0 <= j < i ==> self.threads@[j] is Some,
            decreases self.threads@.len() - i,
        {
            if self.threads[i].is_none() {
                return Some(i);
            }
            i = i + 1;
        }
        None
    }

    /// Whether some thread id is free.
    pub fn has_free_tid(&self) -> (r: bool)
        requires
            self.wf(),
        ensures
            r == !(forall|t: int| 1 <= t <= self.threads_view().len() ==> self.thread(t) is Some),
    {
        match self.free_tid_slot() {
            Some(i) => {
                assert(self.thread((i + 1) as int) is None);
                true
            },
            None => false,
        }
    }

    /// The id the next thread would get: the lowest free one.
    pub open spec fn lowest_free_tid(&self, t: int) -> bool {
        &&& 1 <= t <= self.threads_view().len()
        &&& self.thread(t) is None
        &&& forall|u: int| 1 <= u < t ==> self.thread(u) is Some
    }

    fn add_thread(&mut self, pc: usize, sp: usize, arg: usize, kind: Type, parent: Option<Tid>) -> (r:
        Option<Tid>)
        requires
            old(self).wf(),
        ensures
            final(self).wf(),
            new_thread_effect(*old(self), *final(self), r, pc, sp, arg, kind, parent),
    {
        match self.free_tid_slot() {
            None => None,
            Some(i) => {
                let tid = (i + 1) as Tid;
                let context = ContextFrame::new(
                    pc,
                    sp,
                    arg,
                    match kind {
                        Type::Kernel => true,
                        Type::User(_) => false,
                    },
                );
                let th = Thread {
                    tid,
                    parent,
                    kind,
                    status: Status::NotRunnable,
                    context,
                    peer: None,
                };
                let ghost before = *self;
                self.threads.set(i, Some(th));
                proof {
                    assert forall|j: int|
                        0 <= j < self.ready@.len() implies {
                        let t = #[trigger] self.ready@[j];
                        &&& self.thread(t as int) is Some
                        &&& self.thread(t as int)->0.status == Status::Runnable
                        &&& self.running != Some(t)
                    } by {
                        let t = self.ready@[j];
                        assert(before.thread(t as int) is Some);
                    }
                    assert forall|t: int| t != tid implies #[trigger] self.thread(t) == before.thread(t) by {}
                }
                Some(tid)
            },
        }
    }

    /// Creates a user thread in address space `asid`, not yet runnable.
    /// Returns `None` when every thread id is taken.
    pub fn new_user(&mut self, pc: usize, sp: usize, arg: usize, asid: Asid, parent: Option<Tid>) -> (r:
        Option<Tid>)
        requires
            old(self).wf(),
        ensures
            final(self).wf(),
            new_thread_effect(*old(self), *final(self), r, pc, sp, arg, Type::User(asid), parent),
    {
        self.add_thread(pc, sp, arg, Type::User(asid), parent)
    }

    /// Creates a kernel thread, not yet runnable. Returns `None` when every
    /// thread id is taken.
    pub fn new_kernel(&mut self, pc: usize, sp: usize, arg: usize) -> (r: Option<Tid>)
        requires
            old(self).wf(),
        ensures
            final(self).wf(),
            new_thread_effect(*old(self), *final(self), r, pc, sp, arg, Type::Kernel, None),
    {
        self.add_thread(pc, sp, arg, Type::Kernel, None)
    }
}

/// `th` is blocked in a rendezvous with `peer`.
pub open spec fn waits_on(th: Thread, peer: Tid) -> bool {
    &&& th.peer == Some(peer)
    &&& (th.status == Status::WaitForRequest || th.status == Status::WaitForReply)
}

/// `t1` is `t0` woken with `r` as its syscall return.
pub open spec fn delivered(t0: Thread, t1: Thread, r: SyscallResult) -> bool {
    &&& t1.tid == t0.tid
    &&& t1.parent == t0.parent
    &&& t1.kind == t0.kind
    &&& t1.status == Status::Runnable
    &&& t1.peer is None
    &&& holds_result(t0.context, t1.context, r)
}

/// `k1` is `k0` with thread `tid` woken with `r` as its syscall return.
pub open spec fn deliver_effect(k0: Kernel, k1: Kernel, tid: Tid, r: SyscallResult) -> bool {
    &&& same_memory(k0, k1)
    &&& k0.thread(tid as int) is Some
    &&& k1.threads_view().len() == k0.threads_view().len()
    &&& k1.thread(tid as int) matches Some(t1) && delivered(k0.thread(tid as int)->0, t1, r)
    &&& forall|t: int| t != tid ==> #[trigger] k1.thread(t) == k0.thread(t)
    &&& k1.running_view() == k0.running_view()
    &&& k1.ready_view() == if k0.running_view() == Some(tid) || k0.ready_view().contains(tid) {
        k0.ready_view()
    } else {
        k0.ready_view().push(tid)
    }
}

/// `k1` is `k0` after thread `tid` ended.
pub open spec fn destroy_effect(k0: Kernel, k1: Kernel, tid: Tid) -> bool {
    &&& same_memory(k0, k1)
    &&& k0.thread(tid as int) is Some
    &&& k1.thread(tid as int) is None
    &&& k1.threads_view().len() == k0.threads_view().len()
    &&& forall|t: int|
        t != tid ==> (#[trigger] k1.thread(t) is Some <==> k0.thread(t) is Some)
    &&& forall|t: int|
        t != tid ==> (#[trigger] k0.thread(t) matches Some(th) ==> if waits_on(th, tid) {
            delivered(th, k1.thread(t)->0, Err(ERROR_INVARG))
        } else {
            k1.thread(t) == k0.thread(t)
        })
    &&& !k1.ready_view().contains(tid)
    &&& forall|t: Tid|
        t != tid ==> (#[trigger] k1.ready_view().contains(t) <==> (k0.ready_view().contains(t) || (k0.thread(
            t as int,
        ) matches Some(th) && waits_on(th, tid) && k0.running_view() != Some(t))))
    &&& k1.running_view() == if k0.running_view() == Some(tid) {
        None
    } else {
        k0.running_view()
    }
}

/// Filtering one id out keeps every other id's membership.
pub proof fn lemma_filter_other_than(s: Seq<Tid>, tid: Tid, t: Tid)
    ensures
        !s.filter(other_than(tid)).contains(tid),
        t != tid ==> (s.filter(other_than(tid)).contains(t) <==> s.contains(t)),
{
    broadcast use vstd::seq_lib::group_filter_ensures;
    if s.filter(other_than(tid)).contains(tid) {
        let i = choose|i: int| 0 <= i < s.filter(other_than(tid)).len() && s.filter(other_than(tid))[i] == tid;
        assert(other_than(tid)(s.filter(other_than(tid))[i]));
    }
    if t != tid {
        if s.filter(other_than(tid)).contains(t) {
            s.lemma_filter_contains_rev(other_than(tid), t);
        }
        if s.contains(t) {
            let i = choose|i: int| 0 <= i < s.len() && s[i] == t;
            assert(other_than(tid)(s[i]));
            s.lemma_filter_contains(other_than(tid), i);
        }
    }
}

/// What `itc_call` does: either the rendezvous happens, or nothing changes.
pub open spec fn call_effect(
    k0: Kernel,
    k1: Kernel,
    caller: Tid,
    target: usize,
    a: usize,
    b: usize,
    c: usize,
    d: usize,
    r: SyscallResult,
) -> bool {
    match k0.thread(target as int) {
        None => r == Err::<SyscallOut, ErrorCode>(ERROR_INVARG) && k1 == k0,
        Some(t) => if target != caller && accepts(t, caller) {
            &&& r == Ok::<SyscallOut, ErrorCode>(SyscallOut::Unit)
            &&& same_memory(k0, k1)
            &&& k1.threads_view().len() == k0.threads_view().len()
            &&& k1.thread(target as int) matches Some(t1) && delivered(
                t,
                t1,
                Ok(SyscallOut::Pentad(caller as usize, a, b, c, d)),
            )
            &&& k1.thread(caller as int) == Some(
                Thread {
                    status: Status::WaitForReply,
                    peer: Some(target as Tid),
                    ..k0.thread(caller as int)->0
                },
            )
            &&& forall|x: int| x != target && x != caller ==> #[trigger] k1.thread(x) == k0.thread(x)
            &&& !k1.ready_view().contains(caller)
            &&& k1.ready_view().contains(target as Tid) || k1.running_view() == Some(target as Tid)
            &&& k1.running_view() == k0.running_view()
        } else {
            r == Err::<SyscallOut, ErrorCode>(ERROR_HOLD_ON) && k1 == k0
        },
    }
}

/// What `itc_send` does: either the reply is delivered, or nothing changes.
pub open spec fn send_effect(
    k0: Kernel,
    k1: Kernel,
    caller: Tid,
    target: usize,
    a: usize,
    b: usize,
    c: usize,
    d: usize,
    r: SyscallResult,
) -> bool {
    match k0.thread(target as int) {
        None => r == Err::<SyscallOut, ErrorCode>(ERROR_INVARG) && k1 == k0,
        Some(t) => if t.status == Status::WaitForReply && t.peer == Some(caller) {
            &&& r == Ok::<SyscallOut, ErrorCode>(SyscallOut::Unit)
            &&& deliver_effect(k0, k1, target as Tid, Ok(SyscallOut::Pentad(caller as usize, a, b, c, d)))
        } else {
            r == Err::<SyscallOut, ErrorCode>(ERROR_DENIED) && k1 == k0
        },
    }
}

/// The reference counts after one `drop_ref` of the frame at `pa`.
pub open spec fn drop_one(frames: FrameAllocator, pa: usize) -> Seq<u32> {
    let f = frames.index_of(pa as int);
    let c = frames.refs()[f];
    if c == 0 {
        frames.refs()
    } else {
        frames.refs().update(f, (c - 1) as u32)
    }
}

/// The counts after one drop of frame `f` (a free frame stays free).
pub open spec fn drop_at(refs: Seq<u32>, f: int) -> Seq<u32> {
    if refs[f] == 0 {
        refs
    } else {
        refs.update(f, (refs[f] - 1) as u32)
    }
}

/// The counts after one drop for each leaf of `list`, in order.
pub open spec fn drop_list(refs: Seq<u32>, frames: FrameAllocator, list: Seq<(usize, Pte)>) -> Seq<u32>
    decreases list.len(),
{
    if list.len() == 0 {
        refs
    } else {
        drop_at(drop_list(refs, frames, list.drop_last()), frames.index_of(list.last().1.pa as int))
    }
}

/// `list` holds every leaf of `asid` in `k`, each page once.
pub open spec fn leaves_of(k: Kernel, asid: Asid, list: Seq<(usize, Pte)>) -> bool {
    &&& forall|i: int| 0 <= i < list.len() ==> #[trigger] k.pages_view()@.contains_key((asid, list[i].0))
        && k.pages_view()@[(asid, list[i].0)] == list[i].1
    &&& forall|va: usize| #[trigger] k.pages_view()@.contains_key((asid, va)) ==> exists|i: int|
        0 <= i < list.len() && list[i].0 == va
    &&& forall|i: int, j: int| 0 <= i < j < list.len() ==> #[trigger] list[i].0 != #[trigger] list[j].0
}

/// Registering `h` replaces `x`: they serve the same interrupt line, which
/// has one handler, or both serve the page-fault line of the same space.
pub open spec fn replaces(h: EventHandler, x: EventHandler) -> bool {
    x.irq == h.irq && (h.irq != FAULT_EVENT || x.asid == h.asid)
}

/// Two attribute sets with one encoding are equal.
pub proof fn lemma_attr_bits_injective()
    ensures
        forall|a: Attr, b: Attr| #[trigger] attr_bits(a) == #[trigger] attr_bits(b) ==> a == b,
{
}

/// `k1` is `k0` after the leaf at `va` in `asid` was removed.
pub open spec fn unmap_effect(k0: Kernel, k1: Kernel, asid: Asid, va: usize) -> bool {
    let p = k0.pages_view()@[(asid, va)];
    &&& k0.pages_view()@.contains_key((asid, va))
    &&& k1.pages_view()@ == k0.pages_view()@.remove((asid, va))
    &&& k1.frames_view().refs() == drop_one(k0.frames_view(), p.pa)
    &&& k1.frames_view().bytes() == k0.frames_view().bytes()
    &&& k1.frames_view().base_spec() == k0.frames_view().base_spec()
    &&& k1.threads_view() == k0.threads_view()
    &&& k1.spaces_view() == k0.spaces_view()
    &&& k1.ready_view() == k0.ready_view()
    &&& k1.running_view() == k0.running_view()
    &&& k1.handlers_view() == k0.handlers_view()
}

/// `k1` is `k0` after the frame behind `src_va` in `s` was mapped at the
/// free page `dst_va` in `d` with attributes `attr`, taking one reference.
pub open spec fn map_effect(k0: Kernel, k1: Kernel, s: Asid, src_va: usize, d: Asid, dst_va: usize, attr: usize) -> bool {
    let src = k0.pages_view()@[(s, src_va)];
    let f = k0.frames_view().index_of(src.pa as int);
    let after_clone = k0.frames_view().refs().update(f, (k0.frames_view().refs()[f] + 1) as u32);
    &&& k1.pages_view()@.contains_key((d, dst_va))
    &&& k1.pages_view()@[(d, dst_va)].pa == src.pa
    &&& attr_bits(k1.pages_view()@[(d, dst_va)].attr) == attr
    &&& k1.pages_view()@ == k0.pages_view()@.insert((d, dst_va), k1.pages_view()@[(d, dst_va)])
    &&& !k0.pages_view()@.contains_key((d, dst_va))
    &&& k1.frames_view().refs() == after_clone
    &&& k1.ready_view() == k0.ready_view()
    &&& k1.running_view() == k0.running_view()
    &&& k1.handlers_view() == k0.handlers_view()
    &&& k1.frames_view().base_spec() == k0.frames_view().base_spec()
    &&& k1.frames_view().bytes() == k0.frames_view().bytes()
    &&& k1.threads_view() == k0.threads_view()
    &&& k1.spaces_view() == k0.spaces_view()
}

/// Two distinct frame bases are a whole frame apart.
proof fn lemma_frames_apart(frames: FrameAllocator, a: int, b: int)
    requires
        frames.is_frame(a),
        frames.is_frame(b),
        a != b,
    ensures
        a + PAGE_SIZE <= b || b + PAGE_SIZE <= a,
{
    let x = a - frames.base_spec();
    let y = b - frames.base_spec();
    assert(x % 4096 == 0 && y % 4096 == 0);
}

/// `k1` is `k0` after the copy-on-write leaf at `key` became private and
/// writable, with the same contents.
pub open spec fn cow_effect(k0: Kernel, k1: Kernel, key: (Asid, usize)) -> bool {
    let old_pte = k0.pages_view()@[key];
    let new_pte = k1.pages_view()@[key];
    &&& k1.pages_view()@.contains_key(key)
    &&& k1.pages_view()@ == k0.pages_view()@.insert(key, new_pte)
    &&& new_pte.attr == Attr { writable: true, copy_on_write: false, ..old_pte.attr }
    &&& k1.frames_view().frame_bytes(new_pte.pa as int) == k0.frames_view().frame_bytes(old_pte.pa as int)
    &&& k1.frames_view().frame_bytes(old_pte.pa as int) == k0.frames_view().frame_bytes(old_pte.pa as int)
    &&& new_pte.pa != old_pte.pa ==> k0.frames_view().refs()[k0.frames_view().index_of(new_pte.pa as int)] == 0
    &&& k0.frames_view().refs()[k0.frames_view().index_of(old_pte.pa as int)] > 1 ==> new_pte.pa != old_pte.pa
    &&& forall|q: int| k0.frames_view().is_frame(q) && q != new_pte.pa
        ==> #[trigger] k1.frames_view().frame_bytes(q) == k0.frames_view().frame_bytes(q)
    &&& new_pte.pa == old_pte.pa ==> k1.frames_view().refs() == k0.frames_view().refs()
    &&& new_pte.pa != old_pte.pa ==> ({
        let fo = k0.frames_view().index_of(old_pte.pa as int);
        let fnew = k0.frames_view().index_of(new_pte.pa as int);
        &&& k1.frames_view().refs() == k0.frames_view().refs().update(fnew, 1).update(
            fo,
            (k0.frames_view().refs()[fo] - 1) as u32,
        )
        &&& k1.frames_view().free_spec() == k0.frames_view().free_spec() - 1
    })
    &&& k1.frames_view().base_spec() == k0.frames_view().base_spec()
    &&& k1.frames_view().frame_count() == k0.frames_view().frame_count()
    &&& k1.threads_view() == k0.threads_view()
    &&& k1.spaces_view() == k0.spaces_view()
}

/// What `mem_alloc` does.
pub open spec fn mem_alloc_post(k0: Kernel, k1: Kernel, caller: Tid, asid: usize, va: usize, attr: usize, r: SyscallResult) -> bool {
    &&& r is Err ==> k1 == k0
    &&& match k0.resolve_spec(caller, asid) {
                    None => r == Err::<SyscallOut, ErrorCode>(ERROR_INVARG),
                    Some(a) => if !user_page(va as int) || attr >= ATTR_BITS_LIMIT || k0.pages_view()@.contains_key((a, va)) {
                        r == Err::<SyscallOut, ErrorCode>(ERROR_INVARG)
                    } else if k0.frames_view().free_spec() == 0 {
                        r == Err::<SyscallOut, ErrorCode>(ERROR_NOMEM)
                    } else {
                        &&& r == Ok::<SyscallOut, ErrorCode>(SyscallOut::Unit)
                        &&& k1.pages_view()@.contains_key((a, va))
                        &&& attr_bits(k1.pages_view()@[(a, va)].attr) == attr
                        &&& ({
                            let pa = k1.pages_view()@[(a, va)].pa as int;
                            &&& k0.frames_view().is_frame(pa)
                            &&& k0.frames_view().refs()[k0.frames_view().index_of(pa)] == 0
                            &&& k1.frames_view().refs() == k0.frames_view().refs().update(
                                k0.frames_view().index_of(pa), 1)
                            &&& k1.frames_view().frame_bytes(pa) == Seq::new(PAGE_SIZE as nat, |i: int| 0u8)
                        })
                        &&& k1.pages_view()@ == k0.pages_view()@.insert((a, va), k1.pages_view()@[(a, va)])
                        &&& k1.frames_view().free_spec() == k0.frames_view().free_spec() - 1
                        &&& k1.threads_view() == k0.threads_view()
                        &&& k1.spaces_view() == k0.spaces_view()
                    },
                }
}

/// What `mem_unmap` does.
pub open spec fn mem_unmap_post(k0: Kernel, k1: Kernel, caller: Tid, asid: usize, va: usize, r: SyscallResult) -> bool {
    &&& r is Err ==> k1 == k0 && r == Err::<SyscallOut, ErrorCode>(ERROR_INVARG)
    &&& r is Ok ==> r == Ok::<SyscallOut, ErrorCode>(SyscallOut::Unit)
    &&& r is Ok <==> (k0.resolve_spec(caller, asid) matches Some(a) && user_page(va as int)
                    && k0.pages_view()@.contains_key((a, va)))
    &&& r is Ok ==> unmap_effect(k0, k1, k0.resolve_spec(caller, asid)->0, va)
}

/// What `mem_map` does.
pub open spec fn mem_map_post(k0: Kernel, k1: Kernel, caller: Tid, src_asid: usize, src_va: usize, dst_asid: usize, dst_va: usize, attr: usize, r: SyscallResult) -> bool {
    &&& r is Err ==> k1 == k0
    &&& match k0.resolve_spec(caller, src_asid) {
                    None => r == Err::<SyscallOut, ErrorCode>(ERROR_INVARG),
                    Some(s) => match k0.resolve_spec(caller, dst_asid) {
                        None => r == Err::<SyscallOut, ErrorCode>(ERROR_INVARG),
                        Some(d) => if !user_page(src_va as int) || !user_page(dst_va as int)
                            || attr >= ATTR_BITS_LIMIT || !k0.pages_view()@.contains_key((s, src_va)) {
                            r == Err::<SyscallOut, ErrorCode>(ERROR_INVARG)
                        } else {
                            let src = k0.pages_view()@[(s, src_va)];
                            let f = k0.frames_view().index_of(src.pa as int);
                            let c = k0.frames_view().refs()[f];
                            let same = k0.pages_view()@.contains_key((d, dst_va))
                                && k0.pages_view()@[(d, dst_va)].pa == src.pa
                                && attr_bits(k0.pages_view()@[(d, dst_va)].attr) == attr;
                            if same {
                                r == Ok::<SyscallOut, ErrorCode>(SyscallOut::Unit) && k1 == k0
                            } else if k0.pages_view()@.contains_key((d, dst_va)) {
                                r == Err::<SyscallOut, ErrorCode>(ERROR_INVARG)
                            } else if c == 0 || c == u32::MAX {
                                r == Err::<SyscallOut, ErrorCode>(ERROR_NOMEM)
                            } else {
                                &&& r == Ok::<SyscallOut, ErrorCode>(SyscallOut::Unit)
                                &&& map_effect(k0, k1, s, src_va, d, dst_va, attr)
                            }
                        },
                    },
                }
}

/// What `address_space_destroy` does.
pub open spec fn address_space_destroy_post(k0: Kernel, k1: Kernel, asid: usize, r: Result<(), ErrorCode>) -> bool {
    &&& r is Ok ==> k1.frames_view().base_spec() == k0.frames_view().base_spec()
    &&& r is Ok ==> k1.frames_view().bytes() == k0.frames_view().bytes()
    &&& r is Ok ==> exists|list: Seq<(usize, Pte)>| #[trigger] leaves_of(k0, asid as Asid, list)
        && k1.frames_view().refs() == drop_at(
        drop_list(k0.frames_view().refs(), k0.frames_view(), list),
        k0.frames_view().index_of(k0.space(asid as int)->0.root as int),
    )
    &&& r is Err <==> k0.space(asid as int) is None
    &&& r is Err ==> k1 == k0 && r == Err::<(), ErrorCode>(ERROR_INVARG)
    &&& r is Ok ==> {
                    &&& k1.space(asid as int) is None
                    &&& k1.spaces_view().len() == k0.spaces_view().len()
                    &&& forall|x: int| x != asid ==> #[trigger] k1.space(x) == k0.space(x)
                    &&& forall|k: (Asid, usize)| #[trigger] k1.pages_view()@.contains_key(k) <==> (
                        k0.pages_view()@.contains_key(k) && k.0 != asid)
                    &&& forall|k: (Asid, usize)| #[trigger] k1.pages_view()@.contains_key(k) ==> k1.pages_view()@[k]
                        == k0.pages_view()@[k]
                    &&& forall|t: int| #[trigger] k1.thread(t) is Some <==> (k0.thread(t) is Some
                        && k0.thread(t)->0.kind != Type::User(asid as Asid))
                }
}

/// What `console_put` does.
pub open spec fn console_put_post(k0: Kernel, k1: Kernel, c: u8, r: ()) -> bool {
    &&& k1.console_view() == k0.console_view().push(c)
    &&& k1.frames_view() == k0.frames_view()
    &&& k1.pages_view() == k0.pages_view()
    &&& k1.spaces_view() == k0.spaces_view()
    &&& k1.threads_view() == k0.threads_view()
    &&& k1.ready_view() == k0.ready_view()
    &&& k1.running_view() == k0.running_view()
    &&& k1.handlers_view() == k0.handlers_view()
    &&& k1.servers_view() == k0.servers_view()
}

/// What `server_register` does.
pub open spec fn server_register_post(k0: Kernel, k1: Kernel, name: usize, tid: Tid, r: ()) -> bool {
    &&& k1.servers_view().contains((name, tid))
    &&& forall|i: int| 0 <= i < k1.servers_view().len() ==> {
                    let x = #[trigger] k1.servers_view()[i];
                    x == (name, tid) || (k0.servers_view().contains(x) && x.0 != name)
                }
    &&& k1.frames_view() == k0.frames_view()
    &&& k1.pages_view() == k0.pages_view()
    &&& k1.spaces_view() == k0.spaces_view()
    &&& k1.threads_view() == k0.threads_view()
    &&& k1.ready_view() == k0.ready_view()
    &&& k1.running_view() == k0.running_view()
    &&& k1.handlers_view() == k0.handlers_view()
    &&& k1.console_view() == k0.console_view()
}

/// What `Kernel::address_space_alloc` does.
pub open spec fn space_alloc_post(k0: Kernel, k1: Kernel, r: Result<Asid, ErrorCode>) -> bool {
    &&& r is Err ==> k1 == k0 && r == Err::<Asid, ErrorCode>(ERROR_NOMEM)
    &&& r is Err <==> (forall|a: int| 1 <= a <= k0.spaces_view().len() ==> k0.space(a) is Some)
        || k0.frames_view().free_spec() == 0
    &&& r matches Ok(a) ==> {
        &&& k0.lowest_free_asid(a as int)
        &&& k1.space(a as int) matches Some(sp) && {
            &&& k0.frames_view().is_frame(sp.root as int)
            &&& k0.frames_view().refs()[k0.frames_view().index_of(sp.root as int)] == 0
            &&& k1.frames_view().refs() == k0.frames_view().refs().update(
                k0.frames_view().index_of(sp.root as int), 1)
            &&& forall|q: int| k0.frames_view().is_frame(q) && q != sp.root
                ==> #[trigger] k1.frames_view().frame_bytes(q) == k0.frames_view().frame_bytes(q)
        }
        &&& k1.frames_view().free_spec() == k0.frames_view().free_spec() - 1
        &&& k1.frames_view().base_spec() == k0.frames_view().base_spec()
        &&& k1.spaces_view().len() == k0.spaces_view().len()
        &&& forall|x: int| x != a ==> #[trigger] k1.space(x) == k0.space(x)
        &&& k1.pages_view() == k0.pages_view()
        &&& k1.threads_view() == k0.threads_view()
        &&& k1.ready_view() == k0.ready_view()
        &&& k1.running_view() == k0.running_view()
    }
}

/// Keeps every id but `tid`.
pub open spec fn other_than(tid: Tid) -> spec_fn(Tid) -> bool {
    |x: Tid| x != tid
}

/// The parts of the state that thread scheduling leaves alone.
pub open spec fn same_memory(k0: Kernel, k1: Kernel) -> bool {
    &&& k1.frames_view() == k0.frames_view()
    &&& k1.pages_view() == k0.pages_view()
    &&& k1.spaces_view() == k0.spaces_view()
    &&& k1.handlers_view() == k0.handlers_view()
    &&& k1.servers_view() == k0.servers_view()
    &&& k1.console_view() == k0.console_view()
}

/// `k1` is `k0` with thread `tid` runnable and queued unless it was
/// queued or running.
pub open spec fn wake_effect(k0: Kernel, k1: Kernel, tid: Tid) -> bool {
    &&& same_memory(k0, k1)
    &&& k0.thread(tid as int) is Some
    &&& k1.threads_view() == k0.threads_view().update(
        tid - 1,
        Some(Thread { status: Status::Runnable, ..k0.thread(tid as int)->0 }),
    )
    &&& k1.running_view() == k0.running_view()
    &&& k1.ready_view() == if k0.running_view() == Some(tid) || k0.ready_view().contains(tid) {
        k0.ready_view()
    } else {
        k0.ready_view().push(tid)
    }
}

/// `k1` is `k0` with thread `tid` in `status` and out of the ready queue.
pub open spec fn sleep_effect(k0: Kernel, k1: Kernel, tid: Tid, status: Status) -> bool {
    &&& same_memory(k0, k1)
    &&& k0.thread(tid as int) is Some
    &&& k1.threads_view() == k0.threads_view().update(
        tid - 1,
        Some(Thread { status, ..k0.thread(tid as int)->0 }),
    )
    &&& k1.running_view() == k0.running_view()
    &&& k1.ready_view() == k0.ready_view().filter(other_than(tid))
}

/// The queue that `schedule` picks from: the ready queue, with the running
/// thread at its back if it is still runnable.
pub open spec fn schedule_queue(k0: Kernel) -> Seq<Tid> {
    match k0.running_view() {
        Some(r) => if k0.thread(r as int)->0.status == Status::Runnable {
            k0.ready_view().push(r)
        } else {
            k0.ready_view()
        },
        None => k0.ready_view(),
    }
}

/// `k1` is `k0` after one round-robin step.
pub open spec fn schedule_effect(k0: Kernel, k1: Kernel) -> bool {
    let q = schedule_queue(k0);
    &&& same_memory(k0, k1)
    &&& k1.threads_view() == k0.threads_view()
    &&& if q.len() == 0 {
        k1.running_view() is None && k1.ready_view().len() == 0
    } else {
        k1.running_view() == Some(q[0]) && k1.ready_view() == q.drop_first()
    }
}

/// `k1` is `k0` with one thread added, at the lowest free id, if there was one.
pub open spec fn new_thread_effect(
    k0: Kernel,
    k1: Kernel,
    r: Option<Tid>,
    pc: usize,
    sp: usize,
    arg: usize,
    kind: Type,
    parent: Option<Tid>,
) -> bool {
    &&& k1.frames_view() == k0.frames_view()
    &&& k1.pages_view() == k0.pages_view()
    &&& k1.spaces_view() == k0.spaces_view()
    &&& k1.ready_view() == k0.ready_view()
    &&& k1.running_view() == k0.running_view()
    &&& k1.handlers_view() == k0.handlers_view()
    &&& k1.servers_view() == k0.servers_view()
    &&& k1.console_view() == k0.console_view()
    &&& k1.threads_view().len() == k0.threads_view().len()
    &&& match r {
        None => {
            &&& k1 == k0
            &&& forall|t: int| 1 <= t <= k0.threads_view().len() ==> k0.thread(t) is Some
        },
        Some(tid) => {
            &&& k0.lowest_free_tid(tid as int)
            &&& k1.thread(tid as int) matches Some(th) && {
                &&& th.tid == tid
                &&& th.parent == parent
                &&& th.kind == kind
                &&& th.status == Status::NotRunnable
                &&& th.peer is None
                &&& fresh_frame(th.context, pc, sp, arg, kind == Type::Kernel)
            }
            &&& forall|t: int| t != tid ==> #[trigger] k1.thread(t) == k0.thread(t)
        },
    }
}

} // verus!
