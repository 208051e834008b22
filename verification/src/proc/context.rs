//! Kernel context of a thread: the callee-saved registers a context switch keeps.
use vstd::prelude::*;

verus! {

/// The registers saved across a kernel context switch.
#[derive(Clone, Copy, PartialEq, Eq, Structural, Debug)]
pub struct ProcContext {
    pub ra: usize,
    pub sp: usize,
    pub s0: usize,
    pub s1: usize,
    pub s2: usize,
    pub s3: usize,
    pub s4: usize,
    pub s5: usize,
    pub s6: usize,
    pub s7: usize,
    pub s8: usize,
    pub s9: usize,
    pub s10: usize,
    pub s11: usize,
}

impl ProcContext {
    pub open spec fn spec_zero() -> ProcContext {
        ProcContext {
            ra: 0,
            sp: 0,
            s0: 0,
            s1: 0,
            s2: 0,
            s3: 0,
            s4: 0,
            s5: 0,
            s6: 0,
            s7: 0,
            s8: 0,
            s9: 0,
            s10: 0,
            s11: 0,
        }
    }

    /// An all-zero context.
    pub fn new() -> (r: Self)
        ensures
            r == Self::spec_zero(),
    {
        Self {
            ra: 0,
            sp: 0,
            s0: 0,
            s1: 0,
            s2: 0,
            s3: 0,
            s4: 0,
            s5: 0,
            s6: 0,
            s7: 0,
            s8: 0,
            s9: 0,
            s10: 0,
            s11: 0,
        }
    }

    /// Makes the context resume at `ra` on the stack `sp`.
    pub fn configure(&mut self, ra: usize, sp: usize)
        ensures
            *final(self) == (ProcContext { ra, sp, ..*old(self) }),
    {
        self.ra = ra;
        self.sp = sp;
    }
}

/// The saved user state of a thread that the trap path reads and writes: the
/// program counter, the stack and thread pointers and the argument registers
/// a0..a7, and what the trap path needs to enter the kernel (the kernel's
/// address-space register, the CPU id, the kernel stack top and the trap
/// handler).
#[derive(Clone, Copy, Debug)]
pub struct TrapFrame {
    pub epc: usize,
    pub sp: usize,
    pub tp: usize,
    pub args: [usize; 8],
    pub kernel_satp: u64,
    pub kernel_hartid: usize,
    pub kernel_sp: usize,
    pub kernel_trap: usize,
}

impl TrapFrame {
    /// An all-zero trap frame.
    pub fn new() -> (r: Self)
        ensures
            r.epc == 0 && r.sp == 0 && r.tp == 0,
            forall|i: int| 0 <= i < 8 ==> r.args@[i] == 0,
            r.kernel_satp == 0 && r.kernel_hartid == 0 && r.kernel_sp == 0 && r.kernel_trap == 0,
    {
        TrapFrame { epc: 0, sp: 0, tp: 0, args: [0; 8], kernel_satp: 0, kernel_hartid: 0, kernel_sp: 0, kernel_trap: 0 }
    }

    /// Sets where user mode starts: the program counter, stack and thread pointer.
    pub fn configure(&mut self, epc: usize, sp: usize, tp: usize)
        ensures
            final(self).epc == epc && final(self).sp == sp && final(self).tp == tp,
            final(self).args == old(self).args,
            final(self).kernel_satp == old(self).kernel_satp,
            final(self).kernel_hartid == old(self).kernel_hartid,
            final(self).kernel_sp == old(self).kernel_sp,
            final(self).kernel_trap == old(self).kernel_trap,
    {
        self.epc = epc;
        self.sp = sp;
        self.tp = tp;
    }

    /// Sets what the trap path needs to enter the kernel.
    pub fn configure_kernel(&mut self, satp: u64, hartid: usize, kernel_sp: usize, trap: usize)
        ensures
            final(self).kernel_satp == satp && final(self).kernel_hartid == hartid,
            final(self).kernel_sp == kernel_sp && final(self).kernel_trap == trap,
            final(self).epc == old(self).epc && final(self).sp == old(self).sp && final(self).tp == old(self).tp,
            final(self).args == old(self).args,
    {
        self.kernel_satp = satp;
        self.kernel_hartid = hartid;
        self.kernel_sp = kernel_sp;
        self.kernel_trap = trap;
    }

    /// Sets the argument registers a0..a7.
    pub fn set_registers(&mut self, regs: [usize; 8])
        ensures
            final(self).args == regs,
            final(self).epc == old(self).epc && final(self).sp == old(self).sp && final(self).tp == old(self).tp,
            final(self).kernel_satp == old(self).kernel_satp,
            final(self).kernel_hartid == old(self).kernel_hartid,
            final(self).kernel_sp == old(self).kernel_sp,
            final(self).kernel_trap == old(self).kernel_trap,
    {
        self.args = regs;
    }
}

} // verus!
