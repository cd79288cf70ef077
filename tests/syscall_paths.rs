use rustpi::abi::{
    SyscallOut, ERROR_INVARG, ERROR_NOMEM, SYS_ADDRESS_SPACE_ALLOC, SYS_ADDRESS_SPACE_DESTROY, SYS_MEM_ALLOC,
    SYS_MEM_MAP, SYS_MEM_UNMAP,
};
use rustpi::context::ContextFrame;
use rustpi::fork::fork;
use rustpi::kernel::Kernel;
use rustpi::page_table::Attr;
use rustpi::syscall::{address_space_alloc, syscall};
use rustpi::thread::Status;
use rustpi::trap::{handle_trap, interrupt, Trap, TrapExit};

const FRAME_BASE: usize = 0x4000_0000;

fn boot(frames: usize, threads: usize) -> (Kernel, u16, u16) {
    let mut k = Kernel::new(FRAME_BASE, frames, threads, 8);
    let a = k.address_space_alloc().unwrap();
    let t = k.new_user(0x40000, 0x7fff_f000, 0, a, None).unwrap();
    k.wake(t as usize).unwrap();
    k.schedule();
    (k, a, t)
}

fn call(k: &mut Kernel, tid: u16, num: usize, args: [usize; 6]) -> [usize; 6] {
    let mut c = k.lookup(tid as usize).unwrap().context;
    c.gpr[8] = num;
    for i in 0..6 {
        c.gpr[i] = args[i];
    }
    k.set_context(tid, c);
    assert!(syscall(k).is_some());
    let c = k.lookup(tid as usize).unwrap().context;
    [c.gpr[0], c.gpr[1], c.gpr[2], c.gpr[3], c.gpr[4], c.gpr[5]]
}

#[test]
fn map_and_unmap_through_syscalls() {
    let (mut k, a, t) = boot(16, 8);
    let bits = Attr::user_default().to_bits();
    assert_eq!(call(&mut k, t, SYS_MEM_ALLOC, [0, 0x1000, bits, 0, 0, 0])[0], 0);
    let f = k.lookup_page(a, 0x1000).unwrap().pa;
    assert_eq!(call(&mut k, t, SYS_MEM_MAP, [0, 0x1000, 0, 0x5000, 1 + 8, 0])[0], 0);
    let p = k.lookup_page(a, 0x5000).unwrap();
    assert_eq!(p.pa, f);
    assert_eq!(p.attr.to_bits(), 9);
    assert_eq!(k.frame_refcount(f), Some(2));
    assert_eq!(call(&mut k, t, SYS_MEM_UNMAP, [0, 0x5000, 0, 0, 0, 0])[0], 0);
    assert_eq!(k.lookup_page(a, 0x5000), None);
    assert_eq!(k.frame_refcount(f), Some(1));
    assert!(k.lookup_page(a, 0x1000).is_some());
    assert_eq!(call(&mut k, t, SYS_MEM_UNMAP, [0, 0x5000, 0, 0, 0, 0])[0], ERROR_INVARG);
}

#[test]
fn unknown_numbers_change_nothing() {
    let (mut k, _a, t) = boot(16, 8);
    let free = k.free_frames();
    let pc = k.lookup(t as usize).unwrap().context.pc;
    assert_eq!(call(&mut k, t, 21, [0; 6])[0], ERROR_INVARG);
    assert_eq!(call(&mut k, t, 1000, [0; 6])[0], ERROR_INVARG);
    assert_eq!(k.free_frames(), free);
    assert_eq!(k.lookup(t as usize).unwrap().context.pc, pc + 8);
    assert_eq!(k.running_thread(), Some(t));
}

#[test]
fn address_space_alloc_and_teardown_through_syscalls() {
    let (mut k, _a, t) = boot(128, 8);
    let free0 = k.free_frames();
    let r = call(&mut k, t, SYS_ADDRESS_SPACE_ALLOC, [0; 6]);
    assert_eq!(r[0], 0);
    let (b, main) = (r[1], r[2]);
    assert_eq!(b, 2);
    let m = k.lookup(main).unwrap();
    assert_eq!(m.status, Status::NotRunnable);
    assert_eq!(m.context.gpr[0..6], [0, 0, 0, 0, 0, 0]);
    for i in 0..100 {
        let r = call(&mut k, t, SYS_MEM_ALLOC, [b, 0x20_0000 + i * 4096, Attr::user_default().to_bits(), 0, 0, 0]);
        assert_eq!(r[0], 0);
    }
    assert_eq!(call(&mut k, t, SYS_ADDRESS_SPACE_DESTROY, [b, 0, 0, 0, 0, 0])[0], 0);
    assert_eq!(k.free_frames(), free0);
    assert!(!k.space_live(b));
    assert!(k.lookup(main).is_none());
}

#[test]
fn address_space_alloc_without_thread_id_changes_nothing() {
    let (mut k, _a, t) = boot(16, 1);
    let free = k.free_frames();
    assert_eq!(address_space_alloc(&mut k, t), Err(ERROR_NOMEM));
    assert_eq!(k.free_frames(), free);
    assert!(!k.space_live(2));
}

#[test]
fn copy_on_write_through_the_trap_path() {
    let (mut k, a, p) = boot(32, 8);
    let va = 0x10_0000;
    assert_eq!(k.mem_alloc(p, 0, va, Attr::user_default().to_bits()), Ok(SyscallOut::Unit));
    assert!(k.user_write(a, va, 0xAA));
    let (child, child_tid) = fork(&mut k, p).unwrap();
    let free = k.free_frames();
    let shared = k.lookup_page(child, va).unwrap();
    k.switch_to(child_tid);
    assert_eq!(k.running_thread(), Some(child_tid));
    let frame = k.lookup(child_tid as usize).unwrap().context;
    match handle_trap(&mut k, frame, true, Trap::Abort { addr: va + 3, write: true }) {
        TrapExit::Resume(c) => assert_eq!(c.pc, frame.pc),
        _ => panic!("expected to resume"),
    }
    let private = k.lookup_page(child, va).unwrap();
    assert_ne!(private.pa, shared.pa);
    assert!(private.attr.writable && !private.attr.copy_on_write);
    assert_eq!(k.frame_refcount(private.pa), Some(1));
    assert_eq!(k.frame_refcount(shared.pa), Some(1));
    assert_eq!(k.free_frames(), free - 1);
    assert_eq!(k.user_read(child, va), Some(0xAA));
    assert!(k.user_write(child, va, 0xBB));
    assert_eq!(k.user_read(child, va), Some(0xBB));
    assert_eq!(k.user_read(a, va), Some(0xAA));
}

#[test]
fn write_to_read_only_page_fails() {
    let (mut k, a, p) = boot(16, 8);
    assert_eq!(k.mem_alloc(p, 0, 0x1000, 1 + 8), Ok(SyscallOut::Unit));
    assert!(!k.user_write(a, 0x1000, 1));
    assert!(!k.user_write(a, 0x9000, 1));
    assert_eq!(k.user_read(a, 0x1000), Some(0));
}

#[test]
fn fork_from_kernel_thread_is_invalid() {
    let mut k = Kernel::new(FRAME_BASE, 16, 8, 4);
    let t = k.new_kernel(0, 0, 0).unwrap();
    assert_eq!(fork(&mut k, t), Err(ERROR_INVARG));
}

#[test]
fn fork_shares_every_page() {
    let (mut k, a, p) = boot(32, 8);
    let bits = Attr::user_default().to_bits();
    for i in 0..4 {
        assert_eq!(k.mem_alloc(p, 0, 0x1000 * (i + 1), bits), Ok(SyscallOut::Unit));
    }
    let shared = Attr { shared: true, ..Attr::user_default() };
    assert_eq!(k.mem_alloc(p, 0, 0x9000, shared.to_bits()), Ok(SyscallOut::Unit));
    let (c, t) = fork(&mut k, p).unwrap();
    assert!(k.is_ready(t));
    for i in 0..4 {
        let x = k.lookup_page(c, 0x1000 * (i + 1)).unwrap();
        let y = k.lookup_page(a, 0x1000 * (i + 1)).unwrap();
        assert_eq!(x, y);
        assert!(x.attr.copy_on_write && !x.attr.writable);
    }
    assert_eq!(k.lookup_page(c, 0x9000).unwrap().attr, shared);
}

#[test]
fn interrupt_without_live_space_or_free_id_starts_nothing() {
    let mut k = Kernel::new(FRAME_BASE, 16, 2, 4);
    let a = k.address_space_alloc().unwrap();
    let t = k.new_user(0, 0, 0, a, None).unwrap();
    assert_eq!(rustpi::syscall::dispatch(&mut k, t, 6, [0, 0x7000, 0x9000, 40, 0, 0]), Ok(SyscallOut::Unit));
    let _filler = k.new_kernel(0, 0, 0).unwrap();
    assert_eq!(interrupt(&mut k, 40), None);
    assert!(k.destroy(_filler as usize).is_ok());
    assert_eq!(k.address_space_destroy(a as usize), Ok(()));
    assert_eq!(interrupt(&mut k, 40), None);
    let c = ContextFrame::new(0, 0, 0, false);
    assert!(matches!(handle_trap(&mut k, c, true, Trap::Irq(Some(40))), TrapExit::Idle));
}

#[test]
fn map_over_a_different_leaf_is_refused() {
    let (mut k, a, t) = boot(16, 8);
    let bits = Attr::user_default().to_bits();
    assert_eq!(k.mem_alloc(t, 0, 0x1000, bits), Ok(SyscallOut::Unit));
    assert_eq!(k.mem_alloc(t, 0, 0x2000, bits), Ok(SyscallOut::Unit));
    let before = k.lookup_page(a, 0x2000).unwrap();
    let f = k.lookup_page(a, 0x1000).unwrap().pa;
    assert_eq!(k.mem_map(t, 0, 0x1000, 0, 0x2000, bits), Err(ERROR_INVARG));
    assert_eq!(k.lookup_page(a, 0x2000), Some(before));
    assert_eq!(k.frame_refcount(f), Some(1));
    assert_eq!(k.mem_map(t, 0, 0x1000, 0, 0x1000, 1 + 8), Err(ERROR_INVARG));
    assert_eq!(k.mem_map(t, 0, 0x1000, 0, 0x1000, bits), Ok(SyscallOut::Unit));
    assert_eq!(k.frame_refcount(f), Some(1));
}

#[test]
fn fork_child_returns_zero_where_parent_was() {
    let (mut k, _a, p) = boot(32, 8);
    let mut c = k.lookup(p as usize).unwrap().context;
    c.pc = 0x4444;
    c.gpr[7] = 99;
    k.set_context(p, c);
    let (_child, t) = fork(&mut k, p).unwrap();
    let ctx = k.lookup(t as usize).unwrap().context;
    assert_eq!(ctx.pc, 0x4444);
    assert_eq!(ctx.gpr[0..6], [0, 0, 0, 0, 0, 0]);
    assert_eq!(ctx.gpr[7], 99);
}

#[test]
fn unresolved_fault_is_reported_to_parent_space() {
    let (mut k, a, parent) = boot(16, 8);
    assert_eq!(rustpi::syscall::dispatch(&mut k, parent, 6, [0, 0x7000, 0x9000, 0, 0, 0]), Ok(SyscallOut::Unit));
    let b = k.address_space_alloc().unwrap();
    let child = k.new_user(0x1000, 0x2000, 0, b, Some(parent)).unwrap();
    k.wake(child as usize).unwrap();
    k.switch_to(child);
    let frame = k.lookup(child as usize).unwrap().context;
    let _ = handle_trap(&mut k, frame, true, Trap::Abort { addr: 0x5000, write: false });
    assert_eq!(k.lookup(child as usize).unwrap().status, Status::NotRunnable);
    assert!(!k.is_ready(child));
    let mut found = false;
    for t in 1..9 {
        if let Some(th) = k.lookup(t) {
            if th.context.pc == 0x7000 {
                assert_eq!(th.kind, rustpi::thread::Type::User(a));
                assert_eq!(th.context.gpr[0], child as usize);
                found = true;
            }
        }
    }
    assert!(found);
}

#[test]
fn later_registration_takes_the_line() {
    let mut k = Kernel::new(FRAME_BASE, 16, 8, 4);
    let a = k.address_space_alloc().unwrap();
    let b = k.address_space_alloc().unwrap();
    let ta = k.new_user(0, 0, 0, a, None).unwrap();
    let tb = k.new_user(0, 0, 0, b, None).unwrap();
    assert_eq!(rustpi::syscall::dispatch(&mut k, ta, 6, [0, 0x7000, 0x9000, 40, 0, 0]), Ok(SyscallOut::Unit));
    assert_eq!(rustpi::syscall::dispatch(&mut k, tb, 6, [0, 0x8000, 0x9000, 40, 0, 0]), Ok(SyscallOut::Unit));
    let h = interrupt(&mut k, 40).unwrap();
    let th = k.lookup(h as usize).unwrap();
    assert_eq!(th.kind, rustpi::thread::Type::User(b));
    assert_eq!(th.context.pc, 0x8000);
}

#[test]
fn yield_to_a_thread_that_is_not_ready_changes_nothing() {
    let (mut k, a, t) = boot(16, 8);
    let u = k.new_user(0, 0, 0, a, None).unwrap();
    assert_eq!(rustpi::syscall::yield_to(&mut k, u as usize), Ok(SyscallOut::Unit));
    assert_eq!(k.running_thread(), Some(t));
    k.wake(u as usize).unwrap();
    assert_eq!(rustpi::syscall::yield_to(&mut k, u as usize), Ok(SyscallOut::Unit));
    assert_eq!(k.running_thread(), Some(u));
    assert_eq!(rustpi::syscall::yield_to(&mut k, 50), Err(ERROR_INVARG));
}
