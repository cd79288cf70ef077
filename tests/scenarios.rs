use rustpi::abi::{
    SyscallOut, ERROR_DENIED, ERROR_HOLD_ON, ERROR_INVARG, SYS_ITC_CALL, SYS_ITC_RECV, SYS_ITC_SEND, SYS_NULL,
    SYS_THREAD_DESTROY,
};
use rustpi::fork::fork;
use rustpi::kernel::Kernel;
use rustpi::page_table::Attr;
use rustpi::syscall::{syscall, thread_alloc, thread_destroy};
use rustpi::thread::Status;
use rustpi::trap::{handle_trap, Trap, TrapExit, INT_TIMER};

const FRAME_BASE: usize = 0x4000_0000;

fn boot() -> (Kernel, u16, u16) {
    let mut k = Kernel::new(FRAME_BASE, 256, 64, 16);
    let a = k.address_space_alloc().unwrap();
    let t = k.new_user(0x40000, 0x7fff_f000, 0, a, None).unwrap();
    k.wake(t as usize).unwrap();
    k.schedule();
    assert_eq!(k.running_thread(), Some(t));
    (k, a, t)
}

fn user_thread(k: &mut Kernel, a: u16, parent: Option<u16>) -> u16 {
    let t = k.new_user(0x40000, 0x7fff_e000, 0, a, parent).unwrap();
    k.wake(t as usize).unwrap();
    t
}

fn run_syscall(k: &mut Kernel, tid: u16, num: usize, args: [usize; 6]) {
    if k.running_thread() != Some(tid) {
        k.switch_to(tid);
    }
    assert_eq!(k.running_thread(), Some(tid));
    let mut c = k.lookup(tid as usize).unwrap().context;
    c.gpr[8] = num;
    for i in 0..6 {
        c.gpr[i] = args[i];
    }
    k.set_context(tid, c);
    assert!(syscall(k).is_some());
}

fn regs(k: &Kernel, tid: u16) -> [usize; 6] {
    let c = k.lookup(tid as usize).unwrap().context;
    [c.gpr[0], c.gpr[1], c.gpr[2], c.gpr[3], c.gpr[4], c.gpr[5]]
}

#[test]
fn null_syscall_advances_pc_and_returns_unit() {
    let (mut k, _a, t) = boot();
    let before = k.lookup(t as usize).unwrap().context;
    let free = k.free_frames();
    let ready = k.ready_queue();
    let mut frame = before;
    frame.gpr[8] = SYS_NULL;
    frame.gpr[0] = 77;
    match handle_trap(&mut k, frame, true, Trap::Syscall) {
        TrapExit::Resume(c) => {
            assert_eq!(c.pc, before.pc + 4);
            assert_eq!(c.gpr[0], 0);
            assert_eq!(c.sp, before.sp);
            for i in 1..31 {
                assert_eq!(c.gpr[i], frame.gpr[i]);
            }
        }
        _ => panic!("expected to resume"),
    }
    assert_eq!(k.running_thread(), Some(t));
    assert_eq!(k.free_frames(), free);
    assert_eq!(k.ready_queue(), ready);
    assert_eq!(k.lookup(t as usize).unwrap().status, Status::Runnable);
}

#[test]
fn itc_ping_pong() {
    let (mut k, a, root) = boot();
    let b = user_thread(&mut k, a, Some(root));
    let a_tid = root;
    run_syscall(&mut k, b, SYS_ITC_RECV, [0; 6]);
    assert_eq!(k.lookup(b as usize).unwrap().status, Status::WaitForRequest);
    run_syscall(&mut k, a_tid, SYS_ITC_CALL, [b as usize, 1, 2, 3, 4, 0]);
    assert_eq!(regs(&k, b), [0, a_tid as usize, 1, 2, 3, 4]);
    assert_eq!(k.lookup(b as usize).unwrap().status, Status::Runnable);
    assert_eq!(k.lookup(a_tid as usize).unwrap().status, Status::WaitForReply);
    assert_eq!(k.running_thread(), Some(b));
    run_syscall(&mut k, b, SYS_ITC_SEND, [a_tid as usize, 5, 6, 7, 8, 0]);
    assert_eq!(regs(&k, a_tid), [0, b as usize, 5, 6, 7, 8]);
    assert_eq!(k.lookup(a_tid as usize).unwrap().status, Status::Runnable);
    assert_eq!(regs(&k, b)[0], 0);
}

#[test]
fn fork_and_copy_on_write() {
    let (mut k, a, p) = boot();
    let va = 0x10_0000;
    assert_eq!(k.mem_alloc(p, 0, va, Attr::user_default().to_bits()), Ok(SyscallOut::Unit));
    assert!(k.user_write(a, va, 0xAA));
    let (child_as, child_tid) = fork(&mut k, p).unwrap();
    assert_ne!(child_as, a);
    assert_eq!(k.lookup(child_tid as usize).unwrap().status, Status::Runnable);
    assert_eq!(k.user_read(child_as, va), Some(0xAA));
    assert_eq!(k.user_read(a, va), Some(0xAA));
    let shared = k.lookup_page(a, va).unwrap();
    assert!(shared.attr.copy_on_write && !shared.attr.writable);
    assert_eq!(k.frame_refcount(shared.pa), Some(2));
    assert!(k.user_write(child_as, va, 0xBB));
    assert_eq!(k.user_read(a, va), Some(0xAA));
    assert_eq!(k.user_read(child_as, va), Some(0xBB));
    let private = k.lookup_page(child_as, va).unwrap();
    assert_ne!(private.pa, shared.pa);
    assert!(private.attr.writable && !private.attr.copy_on_write);
    assert_eq!(k.frame_refcount(shared.pa), Some(1));
    assert_eq!(k.frame_refcount(private.pa), Some(1));
    assert!(k.user_write(a, va, 0xCC));
    assert_eq!(k.user_read(a, va), Some(0xCC));
    assert_eq!(k.user_read(child_as, va), Some(0xBB));
}

#[test]
fn unauthorized_destroy_is_denied() {
    let (mut k, _a, root) = boot();
    let t1 = match thread_alloc(&mut k, root, 0, 0x1000, 0x2000, 0) {
        Ok(SyscallOut::Single(t)) => t as u16,
        other => panic!("{:?}", other),
    };
    let t2 = match thread_alloc(&mut k, root, 0, 0x1000, 0x3000, 0) {
        Ok(SyscallOut::Single(t)) => t as u16,
        other => panic!("{:?}", other),
    };
    assert_eq!(thread_destroy(&mut k, t1, t2 as usize), Err(ERROR_DENIED));
    assert!(k.lookup(t2 as usize).is_some());
    assert_eq!(thread_destroy(&mut k, root, t2 as usize), Ok(SyscallOut::Unit));
    assert!(k.lookup(t2 as usize).is_none());
    assert_eq!(thread_destroy(&mut k, root, t2 as usize), Err(ERROR_INVARG));
}

#[test]
fn address_space_teardown_returns_every_frame() {
    let (mut k, _a, root) = boot();
    let free0 = k.free_frames();
    let b = k.address_space_alloc().unwrap();
    for i in 0..100 {
        let r = k.mem_alloc(root, b as usize, 0x20_0000 + i * 4096, Attr::user_default().to_bits());
        assert_eq!(r, Ok(SyscallOut::Unit));
    }
    assert_eq!(k.free_frames(), free0 - 101);
    let t = k.new_user(0x1000, 0x2000, 0, b, Some(root)).unwrap();
    assert_eq!(k.address_space_destroy(b as usize), Ok(()));
    assert_eq!(k.free_frames(), free0);
    assert!(k.lookup(t as usize).is_none());
    assert!(k.traverse(b).is_empty());
    assert!(!k.space_live(b as usize));
}

#[test]
fn timer_preempts_user_threads() {
    let mut k = Kernel::new(FRAME_BASE, 16, 8, 4);
    let a = k.address_space_alloc().unwrap();
    let x = user_thread(&mut k, a, None);
    let y = user_thread(&mut k, a, None);
    k.schedule();
    let mut ran_x = 0;
    let mut ran_y = 0;
    for _ in 0..10 {
        let frame = k.lookup(k.running_thread().unwrap() as usize).unwrap().context;
        match handle_trap(&mut k, frame, true, Trap::Irq(Some(INT_TIMER))) {
            TrapExit::Resume(_) => {}
            _ => panic!("expected to resume"),
        }
        match k.running_thread() {
            Some(t) if t == x => ran_x += 1,
            Some(t) if t == y => ran_y += 1,
            _ => panic!("unexpected thread"),
        }
    }
    assert_eq!(ran_x, 5);
    assert_eq!(ran_y, 5);
}

#[test]
fn kernel_thread_is_not_preempted() {
    let mut k = Kernel::new(FRAME_BASE, 16, 8, 4);
    let kt = k.new_kernel(0x1000, 0x2000, 0).unwrap();
    let a = k.address_space_alloc().unwrap();
    let u = user_thread(&mut k, a, None);
    k.wake(kt as usize).unwrap();
    k.schedule();
    assert_eq!(k.running_thread(), Some(u));
    k.schedule();
    assert_eq!(k.running_thread(), Some(kt));
    let frame = k.lookup(kt as usize).unwrap().context;
    let _ = handle_trap(&mut k, frame, false, Trap::Irq(Some(INT_TIMER)));
    assert_eq!(k.running_thread(), Some(kt));
}

#[test]
fn call_on_busy_target_holds_on() {
    let (mut k, a, root) = boot();
    let b = user_thread(&mut k, a, Some(root));
    assert_eq!(k.itc_call(root, b as usize, 1, 2, 3, 4), Err(ERROR_HOLD_ON));
    assert_eq!(k.lookup(b as usize).unwrap().status, Status::Runnable);
    assert_eq!(k.lookup(root as usize).unwrap().status, Status::Runnable);
    assert_eq!(k.itc_call(root, 60, 1, 2, 3, 4), Err(ERROR_INVARG));
    let _ = k.itc_receive(b);
    assert_eq!(k.itc_call(root, b as usize, 1, 2, 3, 4), Ok(SyscallOut::Unit));
    assert_eq!(k.lookup(b as usize).unwrap().status, Status::Runnable);
    assert_eq!(regs(&k, b), [0, root as usize, 1, 2, 3, 4]);
}

#[test]
fn receive_with_peer_filter_refuses_other_callers() {
    let (mut k, a, root) = boot();
    let b = user_thread(&mut k, a, Some(root));
    let c = user_thread(&mut k, a, Some(root));
    let _ = k.itc_receive(b);
    let mut th = k.lookup(b as usize).unwrap();
    th.peer = Some(c);
    assert_eq!(th.receivable(c), true);
    assert_eq!(th.receivable(root), false);
}

#[test]
fn reply_to_wrong_peer_is_denied() {
    let (mut k, a, root) = boot();
    let b = user_thread(&mut k, a, Some(root));
    let c = user_thread(&mut k, a, Some(root));
    let _ = k.itc_receive(b);
    assert_eq!(k.itc_call(root, b as usize, 1, 2, 3, 4), Ok(SyscallOut::Unit));
    assert_eq!(k.itc_send(c, root as usize, 9, 9, 9, 9), Err(ERROR_DENIED));
    assert_eq!(k.lookup(root as usize).unwrap().status, Status::WaitForReply);
    assert_eq!(k.itc_send(b, root as usize, 5, 6, 7, 8), Ok(SyscallOut::Unit));
    assert_eq!(k.lookup(root as usize).unwrap().status, Status::Runnable);
}

#[test]
fn destroying_server_wakes_waiting_client() {
    let (mut k, a, client) = boot();
    let server = user_thread(&mut k, a, Some(client));
    let _ = k.itc_receive(server);
    assert_eq!(k.itc_call(client, server as usize, 1, 2, 3, 4), Ok(SyscallOut::Unit));
    assert_eq!(k.lookup(client as usize).unwrap().status, Status::WaitForReply);
    assert!(k.destroy(server as usize).is_ok());
    let c = k.lookup(client as usize).unwrap();
    assert_eq!(c.status, Status::Runnable);
    assert_eq!(c.peer, None);
    assert_eq!(c.context.gpr[0], ERROR_INVARG);
    assert!(k.is_ready(client) || k.running_thread() == Some(client));
}

#[test]
fn destroy_self_through_syscall() {
    let (mut k, a, root) = boot();
    let other = user_thread(&mut k, a, None);
    run_syscall(&mut k, root, SYS_THREAD_DESTROY, [0; 6]);
    assert!(k.lookup(root as usize).is_none());
    assert_eq!(k.running_thread(), Some(other));
}
