use rustpi::abi::{SyscallOut, ERROR_INVARG, ERROR_NOMEM};
use rustpi::board::{launch_other_cores, stack, BOARD_CORE_NUMBER, STACK_SIZE};
use rustpi::client::VirtioClient;
use rustpi::context::ContextFrame;
use rustpi::frame::{FrameAllocator, PAGE_SIZE};
use rustpi::kernel::Kernel;
use rustpi::page_table::{Attr, MapError, PageMap, Pte};
use rustpi::parker::{futex_wait, futex_wake, Parker};
use rustpi::semaphore::{Semaphore, SemaphoreWaitResult};
use rustpi::stdio::{getline, line_bytes};
use rustpi::syscall::{dispatch, get_asid, get_tid, server_tid};
use rustpi::thread::{Error, Status, Type};
use rustpi::trap::{classify_aarch64, handle_trap, interrupt, Trap, TrapExit};

const FRAME_BASE: usize = 0x4000_0000;

#[test]
fn attr_encoding_round_trips() {
    let d = Attr::user_default();
    assert_eq!(d.to_bits(), 11);
    assert_eq!(Attr::from_bits(11), Some(d));
    for bits in 0..128 {
        assert_eq!(Attr::from_bits(bits).unwrap().to_bits(), bits);
    }
    assert_eq!(Attr::from_bits(128), None);
    let cow = Attr::from_bits(32 + 8 + 1).unwrap();
    assert!(cow.copy_on_write && cow.user && cow.readable && !cow.writable);
}

#[test]
fn frames_are_handed_out_lowest_first_and_zeroed() {
    let mut f = FrameAllocator::new(FRAME_BASE, 3);
    assert_eq!(f.free_count(), 3);
    let a = f.alloc_frame().unwrap();
    let b = f.alloc_frame().unwrap();
    assert_eq!(a, FRAME_BASE);
    assert_eq!(b, FRAME_BASE + PAGE_SIZE);
    f.write_byte(a + 5, 9);
    assert_eq!(f.read_byte(a + 5), 9);
    assert!(f.clone_ref(a));
    assert_eq!(f.refcount(a), 2);
    f.drop_ref(a);
    f.drop_ref(a);
    assert_eq!(f.refcount(a), 0);
    assert_eq!(f.free_count(), 2);
    assert!(!f.clone_ref(a));
    let again = f.alloc_frame().unwrap();
    assert_eq!(again, a);
    assert_eq!(f.read_byte(a + 5), 0);
    let _ = f.alloc_frame().unwrap();
    assert_eq!(f.alloc_frame(), None);
    assert_eq!(f.free_count(), 0);
}

#[test]
fn copy_frame_copies_one_page() {
    let mut f = FrameAllocator::new(FRAME_BASE, 2);
    let a = f.alloc_frame().unwrap();
    let b = f.alloc_frame().unwrap();
    f.write_byte(a, 1);
    f.write_byte(a + PAGE_SIZE - 1, 2);
    f.copy_frame(a, b);
    assert_eq!(f.read_byte(b), 1);
    assert_eq!(f.read_byte(b + PAGE_SIZE - 1), 2);
    assert_eq!(f.frame_address(1), b);
    assert!(f.owns(b));
    assert!(!f.owns(b + 1));
}

#[test]
fn page_map_insert_is_idempotent_only_for_the_same_leaf() {
    let mut m = PageMap::new();
    let p = Pte { pa: 0x5000, attr: Attr::user_default() };
    assert_eq!(m.insert(1, 0x1000, p), Ok(()));
    assert_eq!(m.insert(1, 0x1000, p), Ok(()));
    let q = Pte { pa: 0x6000, attr: Attr::user_default() };
    assert_eq!(m.insert(1, 0x1000, q), Err(MapError::AlreadyMapped));
    assert_eq!(m.lookup(1, 0x1000), Some(p));
    assert_eq!(m.lookup(2, 0x1000), None);
    assert_eq!(m.insert(2, 0x1000, q), Ok(()));
    assert_eq!(m.mappings_of(1).len(), 1);
    assert_eq!(m.remove(1, 0x1000), Some(p));
    assert_eq!(m.lookup(1, 0x1000), None);
    assert_eq!(m.remove(1, 0x1000), None);
    assert_eq!(m.lookup(2, 0x1000), Some(q));
}

#[test]
fn map_then_unmap_round_trip() {
    let mut k = Kernel::new(FRAME_BASE, 8, 8, 4);
    let a = k.address_space_alloc().unwrap();
    let t = k.new_user(0, 0, 0, a, None).unwrap();
    let bits = Attr::user_default().to_bits();
    assert_eq!(k.mem_alloc(t, 0, 0x1000, bits), Ok(SyscallOut::Unit));
    let src = k.lookup_page(a, 0x1000).unwrap();
    assert_eq!(k.frame_refcount(src.pa), Some(1));
    let ro = Attr::from_bits(1 + 8).unwrap();
    assert_eq!(k.mem_map(t, 0, 0x1000, 0, 0x2000, ro.to_bits()), Ok(SyscallOut::Unit));
    let mapped = k.lookup_page(a, 0x2000).unwrap();
    assert_eq!(mapped.pa, src.pa);
    assert_eq!(mapped.attr, ro);
    assert_eq!(k.frame_refcount(src.pa), Some(2));
    assert_eq!(k.mem_map(t, 0, 0x1000, 0, 0x2000, ro.to_bits()), Ok(SyscallOut::Unit));
    assert_eq!(k.frame_refcount(src.pa), Some(2));
    assert_eq!(k.mem_unmap(t, 0, 0x2000), Ok(SyscallOut::Unit));
    assert_eq!(k.lookup_page(a, 0x2000), None);
    assert_eq!(k.frame_refcount(src.pa), Some(1));
    assert_eq!(k.mem_unmap(t, 0, 0x2000), Err(ERROR_INVARG));
}

#[test]
fn memory_syscalls_reject_bad_arguments() {
    let mut k = Kernel::new(FRAME_BASE, 3, 8, 4);
    let a = k.address_space_alloc().unwrap();
    let t = k.new_user(0, 0, 0, a, None).unwrap();
    let bits = Attr::user_default().to_bits();
    assert_eq!(k.mem_alloc(t, 0, 0x1001, bits), Err(ERROR_INVARG));
    assert_eq!(k.mem_alloc(t, 0, 0x1000, 500), Err(ERROR_INVARG));
    assert_eq!(k.mem_alloc(t, 9, 0x1000, bits), Err(ERROR_INVARG));
    assert_eq!(k.mem_alloc(t, 0, 0x8000_0000, bits), Err(ERROR_INVARG));
    assert_eq!(k.mem_alloc(t, 0, 0x1000, bits), Ok(SyscallOut::Unit));
    assert_eq!(k.mem_alloc(t, 0, 0x1000, bits), Err(ERROR_INVARG));
    assert_eq!(k.mem_alloc(t, 0, 0x2000, bits), Ok(SyscallOut::Unit));
    assert_eq!(k.mem_alloc(t, 0, 0x3000, bits), Err(ERROR_NOMEM));
    assert_eq!(k.mem_map(t, 0, 0x5000, 0, 0x6000, bits), Err(ERROR_INVARG));
}

#[test]
fn ids_are_unique_and_reused_after_destroy() {
    let mut k = Kernel::new(FRAME_BASE, 8, 4, 2);
    let a = k.address_space_alloc().unwrap();
    let t1 = k.new_user(0, 0, 0, a, None).unwrap();
    let t2 = k.new_user(0, 0, 0, a, None).unwrap();
    let t3 = k.new_kernel(0, 0, 0).unwrap();
    let t4 = k.new_kernel(0, 0, 0).unwrap();
    assert_eq!((t1, t2, t3, t4), (1, 2, 3, 4));
    assert_eq!(k.new_kernel(0, 0, 0), None);
    assert!(k.destroy(2).is_ok());
    assert_eq!(k.destroy(2), Err(Error::ThreadNotFoundError));
    assert_eq!(k.new_user(0, 0, 0, a, None), Some(2));
    let b = k.address_space_alloc().unwrap();
    assert_eq!((a, b), (1, 2));
    assert_eq!(k.address_space_alloc(), Err(ERROR_NOMEM));
    assert_eq!(k.address_space_destroy(1), Ok(()));
    assert_eq!(k.address_space_destroy(1), Err(ERROR_INVARG));
    assert_eq!(k.address_space_alloc(), Ok(1));
    assert!(k.lookup(1).is_none());
    assert!(k.lookup(3).is_some());
}

#[test]
fn free_reports_missing_thread() {
    let mut k = Kernel::new(FRAME_BASE, 8, 4, 2);
    assert_eq!(k.free(1), Err(Error::ThreadNotFoundError));
    let t = k.new_kernel(0, 0, 0).unwrap();
    assert_eq!(k.free(t as usize), Ok(()));
    assert!(k.lookup(t as usize).is_none());
}

#[test]
fn new_thread_starts_not_runnable_with_its_frame() {
    let mut k = Kernel::new(FRAME_BASE, 8, 4, 2);
    let t = k.new_user(0x4000, 0x8000, 7, 1, Some(3)).unwrap();
    let th = k.lookup(t as usize).unwrap();
    assert_eq!(th.status(), Status::NotRunnable);
    assert_eq!(th.kind, Type::User(1));
    assert_eq!(th.address_space(), Some(1));
    assert!(th.is_child_of(3));
    assert!(!th.is_child_of(2));
    assert_eq!(th.context().pc, 0x4000);
    assert_eq!(th.context().sp, 0x8000);
    assert_eq!(th.context().gpr[0], 7);
    assert!(!th.runnable());
    let kt = k.new_kernel(0x10, 0x20, 0).unwrap();
    assert_eq!(k.lookup(kt as usize).unwrap().address_space(), None);
}

#[test]
fn sleep_takes_thread_off_the_ready_queue() {
    let mut k = Kernel::new(FRAME_BASE, 8, 4, 2);
    let a = k.new_kernel(0, 0, 0).unwrap();
    let b = k.new_kernel(0, 0, 0).unwrap();
    k.wake(a as usize).unwrap();
    k.wake(b as usize).unwrap();
    k.wake(b as usize).unwrap();
    assert_eq!(k.ready_queue(), vec![a, b]);
    k.sleep(a as usize, Status::Sleep).unwrap();
    assert_eq!(k.ready_queue(), vec![b]);
    assert_eq!(k.wake(9), Err(Error::ThreadNotFoundError));
    k.schedule();
    assert_eq!(k.running_thread(), Some(b));
    k.schedule();
    assert_eq!(k.running_thread(), Some(b));
    k.sleep(b as usize, Status::Sleep).unwrap();
    k.schedule();
    assert_eq!(k.running_thread(), None);
}

#[test]
fn context_frame_result_registers() {
    let mut c = ContextFrame::new(0x100, 0x200, 3, false);
    c.set_syscall_result(&Ok(SyscallOut::Pentad(1, 2, 3, 4, 5)));
    assert_eq!(&c.gpr[0..6], &[0, 1, 2, 3, 4, 5]);
    c.set_syscall_result(&Ok(SyscallOut::Single(9)));
    assert_eq!(&c.gpr[0..2], &[0, 9]);
    c.set_syscall_result(&Err(ERROR_INVARG));
    assert_eq!(c.gpr[0], ERROR_INVARG);
    assert_eq!(c.gpr[1], 9);
    c.set_pc(0x104);
    assert_eq!(c.get_pc(), 0x104);
    c.gpr[8] = 17;
    assert_eq!(c.syscall_number(), 17);
    assert_eq!(c.syscall_argument(4), 4);
    assert_eq!(c.syscall_argument(5), 5);
    assert_ne!(ContextFrame::new(0, 0, 0, true).spsr, ContextFrame::new(0, 0, 0, false).spsr);
}

#[test]
fn unknown_syscall_is_invalid() {
    let mut k = Kernel::new(FRAME_BASE, 8, 4, 2);
    let t = k.new_kernel(0, 0, 0).unwrap();
    assert_eq!(dispatch(&mut k, t, 99, [0; 6]), Err(ERROR_INVARG));
    assert_eq!(dispatch(&mut k, t, 14, [0; 6]), Err(ERROR_INVARG));
    assert_eq!(dispatch(&mut k, t, 3, [0; 6]), Ok(SyscallOut::Single(t as usize)));
    assert_eq!(get_tid(t), Ok(SyscallOut::Single(t as usize)));
    assert_eq!(get_asid(&k, t, 0), Err(ERROR_INVARG));
}

#[test]
fn putc_and_servers() {
    let mut k = Kernel::new(FRAME_BASE, 8, 4, 2);
    let a = k.address_space_alloc().unwrap();
    let t = k.new_user(0, 0, 0, a, None).unwrap();
    assert_eq!(dispatch(&mut k, t, 1, [b'h' as usize, 0, 0, 0, 0, 0]), Ok(SyscallOut::Unit));
    assert_eq!(dispatch(&mut k, t, 1, [b'i' as usize, 0, 0, 0, 0, 0]), Ok(SyscallOut::Unit));
    assert_eq!(k.console_take(), b"hi".to_vec());
    assert!(k.console_take().is_empty());
    assert_eq!(server_tid(&k, 4), Err(rustpi::abi::ERROR_HOLD_ON));
    assert_eq!(dispatch(&mut k, t, 19, [4, 0, 0, 0, 0, 0]), Ok(SyscallOut::Unit));
    assert_eq!(server_tid(&k, 4), Ok(SyscallOut::Single(t as usize)));
    assert_eq!(get_asid(&k, t, 0), Ok(SyscallOut::Single(a as usize)));
}

#[test]
fn interrupt_starts_registered_handler() {
    let mut k = Kernel::new(FRAME_BASE, 8, 8, 2);
    let a = k.address_space_alloc().unwrap();
    let t = k.new_user(0, 0, 0, a, None).unwrap();
    assert_eq!(interrupt(&mut k, 40), None);
    assert_eq!(dispatch(&mut k, t, 6, [0, 0x7000, 0x9000, 40, 0, 0]), Ok(SyscallOut::Unit));
    let h = interrupt(&mut k, 40).unwrap();
    let th = k.lookup(h as usize).unwrap();
    assert_eq!(th.status, Status::Runnable);
    assert_eq!(th.context.pc, 0x7000);
    assert_eq!(th.context.sp, 0x9000);
    assert_eq!(th.context.gpr[0], 40);
    assert_eq!(th.kind, Type::User(a));
}

#[test]
fn kernel_faults_and_unknown_irqs_are_fatal() {
    let mut k = Kernel::new(FRAME_BASE, 8, 8, 2);
    let c = ContextFrame::new(0, 0, 0, true);
    assert!(matches!(handle_trap(&mut k, c, false, Trap::Abort { addr: 0, write: true }), TrapExit::Panic));
    assert!(matches!(handle_trap(&mut k, c, true, Trap::Irq(None)), TrapExit::Panic));
    assert!(matches!(handle_trap(&mut k, c, true, Trap::Irq(Some(5))), TrapExit::Panic));
    assert!(matches!(handle_trap(&mut k, c, true, Trap::Irq(Some(40))), TrapExit::Idle));
}

#[test]
fn unhandled_user_fault_parks_the_thread() {
    let mut k = Kernel::new(FRAME_BASE, 8, 8, 2);
    let a = k.address_space_alloc().unwrap();
    let t = k.new_user(0, 0, 0, a, None).unwrap();
    k.wake(t as usize).unwrap();
    k.schedule();
    let c = k.lookup(t as usize).unwrap().context;
    assert!(matches!(handle_trap(&mut k, c, true, Trap::Abort { addr: 0x1234, write: true }), TrapExit::Idle));
    assert_eq!(k.lookup(t as usize).unwrap().status, Status::NotRunnable);
}

#[test]
fn classify_exception_classes() {
    assert_eq!(classify_aarch64(0x15, 0, false), Trap::Syscall);
    assert_eq!(classify_aarch64(0x24, 0x10, true), Trap::Abort { addr: 0x10, write: true });
    assert_eq!(classify_aarch64(0x20, 0x10, true), Trap::Abort { addr: 0x10, write: false });
    assert_eq!(classify_aarch64(0x3c, 0, false), Trap::Other);
}

#[test]
fn semaphore_queues_and_wakes_in_order() {
    let mut k = Kernel::new(FRAME_BASE, 8, 8, 2);
    let a = k.new_kernel(0, 0, 0).unwrap();
    let b = k.new_kernel(0, 0, 0).unwrap();
    let mut s = Semaphore::new();
    assert_eq!(s.wait(&mut k, a), SemaphoreWaitResult::Enqueued);
    assert_eq!(s.wait(&mut k, b), SemaphoreWaitResult::Enqueued);
    assert_eq!(k.lookup(a as usize).unwrap().status, Status::Sleep);
    assert_eq!(s.signal(&mut k), Some(a));
    assert_eq!(k.lookup(a as usize).unwrap().status, Status::Runnable);
    assert_eq!(s.try_signal(&mut k), Some(b));
    assert_eq!(s.signal(&mut k), None);
    assert_eq!(s.wait(&mut k, a), SemaphoreWaitResult::Acquired);
    assert_eq!(s.wait(&mut k, a), SemaphoreWaitResult::Enqueued);
}

#[test]
fn parker_consumes_each_token_once() {
    let mut p = Parker::new();
    assert!(!p.unpark());
    assert!(p.park_begin());
    assert!(!p.park_begin());
    assert!(!p.park_woken());
    assert!(p.unpark());
    assert!(p.park_woken());
    assert!(!p.park_begin());
    assert!(!p.park_timeout_end());
    assert!(!p.unpark());
    assert!(p.park_timeout_end());
    assert!(futex_wait(-1, -1));
    assert!(!futex_wait(1, -1));
    assert_eq!(futex_wake(3), 1);
    assert_eq!(futex_wake(0), 0);
}

#[test]
fn board_stacks_and_cores() {
    assert!(launch_other_cores(0).is_empty());
    assert_eq!(BOARD_CORE_NUMBER, 1);
    let s = stack(0x1000, 0);
    assert_eq!(s.top(), 0x1000 + STACK_SIZE);
    assert_eq!(STACK_SIZE, 128 * 4096);
}

#[test]
fn getline_stops_at_carriage_return() {
    assert_eq!(line_bytes(&b"ls -l\rrest".to_vec()), Some(b"ls -l".to_vec()));
    assert_eq!(line_bytes(&b"\r".to_vec()), Some(Vec::new()));
    assert_eq!(line_bytes(&b"partial".to_vec()), None);
    assert_eq!(getline(&b"ls -l\rrest".to_vec()), Some(Ok(String::from("ls -l"))));
    assert_eq!(getline(&"h\u{e9}\r".as_bytes().to_vec()), Some(Ok(String::from("h\u{e9}"))));
    assert_eq!(getline(&vec![0x66, 0xff, 0x0d]), Some(Err(vec![0x66, 0xff])));
    assert_eq!(getline(&b"partial".to_vec()), None);
}

#[test]
fn kernel_set_status_keeps_queue_in_step() {
    let mut k = Kernel::new(FRAME_BASE, 8, 4, 2);
    let a = k.new_kernel(0, 0, 0).unwrap();
    assert_eq!(k.set_status(a as usize, Status::Runnable), Ok(()));
    assert_eq!(k.set_status(a as usize, Status::Runnable), Ok(()));
    assert_eq!(k.ready_queue(), vec![a]);
    assert_eq!(k.set_status(a as usize, Status::Sleep), Ok(()));
    assert!(k.ready_queue().is_empty());
    assert_eq!(k.lookup(a as usize).unwrap().status, Status::Sleep);
    assert_eq!(k.set_status(7, Status::Runnable), Err(Error::ThreadNotFoundError));
}

#[test]
fn virtio_client_waits_for_server() {
    assert_eq!(VirtioClient::new(None), None);
    assert_eq!(VirtioClient::new(Some(5)), Some(VirtioClient { server_tid: 5 }));
}
