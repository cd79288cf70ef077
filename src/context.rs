use vstd::prelude::*;
use crate::abi::{SyscallOut, SyscallResult};

verus! {

/// Number of general-purpose registers saved in a frame.
pub const GPR_COUNT: usize = 31;

/// Size in bytes of a saved frame: 31 registers, status, pc and sp, 8 bytes each.
pub const CONTEXT_FRAME_SIZE: usize = 0x110;

/// Width of one instruction; a syscall resumes after the trapping one.
pub const INSTRUCTION_SIZE: usize = 4;

/// Register that carries the syscall number.
pub const SYSCALL_NUMBER_REG: usize = 8;

/// Saved status register of a thread that runs in user mode.
pub const SPSR_USER: usize = 0x340;

/// Saved status register of a thread that runs in kernel mode.
pub const SPSR_KERNEL: usize = 0x3c5;

/// A thread's saved register file, as stored at a trap boundary.
#[derive(Clone, Copy, Debug)]
pub struct ContextFrame {
    pub gpr: [usize; 31],
    pub spsr: usize,
    pub pc: usize,
    pub sp: usize,
}

/// The registers that a syscall result occupies: x0 holds 0 or the error
/// code, x1..x5 hold the values.
pub open spec fn result_regs(r: SyscallResult) -> Seq<usize> {
    match r {
        Ok(SyscallOut::Unit) => seq![0],
        Ok(SyscallOut::Single(a)) => seq![0, a],
        Ok(SyscallOut::Pentad(a, b, c, d, e)) => seq![0, a, b, c, d, e],
        Err(code) => seq![code],
    }
}

/// `after` is `before` with the result of a syscall written into it.
pub open spec fn holds_result(before: ContextFrame, after: ContextFrame, r: SyscallResult) -> bool {
    let regs = result_regs(r);
    &&& after.pc == before.pc
    &&& after.sp == before.sp
    &&& after.spsr == before.spsr
    &&& forall|i: int| 0 <= i < regs.len() ==> after.gpr@[i] == regs[i]
    &&& forall|i: int| regs.len() <= i < 31 ==> after.gpr@[i] == before.gpr@[i]
}

impl ContextFrame {
    /// A fresh frame that starts at `pc` with stack `sp` and `arg` in x0.
    pub fn new(pc: usize, sp: usize, arg: usize, privileged: bool) -> (r: ContextFrame)
        ensures
            r.pc == pc,
            r.sp == sp,
            r.gpr@[0] == arg,
            forall|i: int| 1 <= i < 31 ==> r.gpr@[i] == 0,
            r.spsr == if privileged { SPSR_KERNEL } else { SPSR_USER },
    {
        let mut gpr = [0usize; 31];
        gpr[0] = arg;
        ContextFrame { gpr, spsr: if privileged { SPSR_KERNEL } else { SPSR_USER }, pc, sp }
    }

    pub fn get_pc(&self) -> (r: usize)
        ensures
            r == self.pc,
    {
        self.pc
    }

    pub fn set_pc(&mut self, pc: usize)
        ensures
            *final(self) == (ContextFrame { pc, ..*old(self) }),
    {
        self.pc = pc;
    }

    /// The syscall number, from x8.
    pub fn syscall_number(&self) -> (r: usize)
        ensures
            r == self.gpr@[8],
    {
        self.gpr[SYSCALL_NUMBER_REG]
    }

    /// The `i`-th syscall argument, from x0..x5.
    pub fn syscall_argument(&self, i: usize) -> (r: usize)
        requires
            i < 6,
        ensures
            r == self.gpr@[i as int],
    {
        self.gpr[i]
    }

    /// Writes a syscall result into the return registers.
    pub fn set_syscall_result(&mut self, r: &SyscallResult)
        ensures
            holds_result(*old(self), *final(self), *r),
    {
        match r {
            Ok(SyscallOut::Unit) => {
                self.gpr[0] = 0;
            },
            Ok(SyscallOut::Single(a)) => {
                self.gpr[0] = 0;
                self.gpr[1] = *a;
            },
            Ok(SyscallOut::Pentad(a, b, c, d, e)) => {
                self.gpr[0] = 0;
                self.gpr[1] = *a;
                self.gpr[2] = *b;
                self.gpr[3] = *c;
                self.gpr[4] = *d;
                self.gpr[5] = *e;
            },
            Err(code) => {
                self.gpr[0] = *code;
            },
        }
    }
}

} // verus!
