use vstd::prelude::*;

verus! {

/// Thread identifier; 0 is never the id of a live thread.
pub type Tid = u16;

/// Address-space identifier; 0 means "the caller's own address space".
pub type Asid = u16;

/// An error code handed back to user mode.
pub type ErrorCode = usize;

/// Unknown syscall number, unknown thread or address space, malformed argument.
pub const ERROR_INVARG: ErrorCode = 1;

/// The caller has no authority for the request.
pub const ERROR_DENIED: ErrorCode = 5;

/// The target is not ready yet: yield and retry.
pub const ERROR_HOLD_ON: ErrorCode = 6;

/// Frames or identifiers are exhausted.
pub const ERROR_NOMEM: ErrorCode = 7;

pub const SYS_NULL: usize = 0;
pub const SYS_PUTC: usize = 1;
pub const SYS_GET_ASID: usize = 2;
pub const SYS_GET_TID: usize = 3;
pub const SYS_THREAD_YIELD: usize = 4;
pub const SYS_THREAD_DESTROY: usize = 5;
pub const SYS_EVENT_HANDLER: usize = 6;
pub const SYS_MEM_ALLOC: usize = 7;
pub const SYS_MEM_MAP: usize = 8;
pub const SYS_MEM_UNMAP: usize = 9;
pub const SYS_ADDRESS_SPACE_ALLOC: usize = 10;
pub const SYS_THREAD_ALLOC: usize = 11;
pub const SYS_THREAD_SET_STATUS: usize = 12;
pub const SYS_ADDRESS_SPACE_DESTROY: usize = 13;
pub const SYS_IPC_CAN_SEND: usize = 14;
pub const SYS_ITC_RECV: usize = 15;
pub const SYS_ITC_SEND: usize = 16;
pub const SYS_ITC_CALL: usize = 17;
pub const SYS_ITC_REPLY: usize = 18;
pub const SYS_SERVER_REGISTER: usize = 19;
pub const SYS_SERVER_TID: usize = 20;

/// Number of syscall slots; numbers at or above it are invalid.
pub const SYSCALL_COUNT: usize = 21;

/// `thread_set_status` argument that makes a thread runnable.
pub const THREAD_STATUS_RUNNABLE: usize = 1;

/// `thread_set_status` argument that puts a thread to sleep.
pub const THREAD_STATUS_NOT_RUNNABLE: usize = 2;

/// The value part of a successful syscall.
#[derive(PartialEq, Eq, Structural, Clone, Copy, Debug)]
pub enum SyscallOut {
    Unit,
    Single(usize),
    Pentad(usize, usize, usize, usize, usize),
}

/// What every syscall returns.
pub type SyscallResult = Result<SyscallOut, ErrorCode>;

} // verus!
