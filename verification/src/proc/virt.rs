//! Virtual CPUs: the state of a guest CPU between runs, and what a run's exit
//! does to it. Entering the guest is the caller's part.
use vstd::prelude::*;
use crate::error::Error;
use crate::mem::addr::PhysAddr;
use crate::cap::{Capability, CapType};
use super::context::TrapFrame;

verus! {

/// Why a guest run ended, as reported to the VMM.
#[derive(Clone, Copy, PartialEq, Eq, Structural, Debug)]
pub enum VcpuExitReason {
    NoExit,
    HostTrap,
    GuestPageFault,
    VirtualInstruction,
    ExternalInterrupt,
    Unknown,
}

/// Why a guest run ended, as the hardware layer reports it.
#[derive(Clone, Copy, PartialEq, Eq, Structural, Debug)]
pub enum VirtExitReason {
    NoExit,
    HostTrap,
    GuestPageFault,
    VirtualInstruction,
    ExternalInterrupt,
    TimerInterrupt,
    Unknown,
}

/// A run's exit: the reason and three words of detail.
#[derive(Clone, Copy, PartialEq, Eq, Structural, Debug)]
pub struct VirtExit {
    pub reason: VirtExitReason,
    pub detail0: usize,
    pub detail1: usize,
    pub detail2: usize,
}

/// What entering the guest takes and gives back.
#[derive(Clone, Copy, Debug)]
pub struct VcpuRunState {
    pub regs: [usize; 32],
    pub pc: usize,
    pub hgatp: usize,
    pub pending_virq_bitmap: usize,
}

/// A virtual CPU.
#[derive(Clone, Copy, Debug)]
pub struct VcpuState {
    pub bound_tcb: usize,
    pub vmspace_paddr: usize,
    pub hgatp: usize,
    pub vmid: usize,
    pub pending_virq_bitmap: usize,
    pub regs: [usize; 32],
    pub pc: usize,
    pub exit_reason: VcpuExitReason,
    pub exit_detail0: usize,
    pub exit_detail1: usize,
    pub exit_detail2: usize,
}

/// The reason reported to the VMM for a hardware exit reason; a timer
/// interrupt counts as an external interrupt.
pub open spec fn exit_reason_of(r: VirtExitReason) -> VcpuExitReason {
    match r {
        VirtExitReason::NoExit => VcpuExitReason::NoExit,
        VirtExitReason::HostTrap => VcpuExitReason::HostTrap,
        VirtExitReason::GuestPageFault => VcpuExitReason::GuestPageFault,
        VirtExitReason::VirtualInstruction => VcpuExitReason::VirtualInstruction,
        VirtExitReason::ExternalInterrupt => VcpuExitReason::ExternalInterrupt,
        VirtExitReason::TimerInterrupt => VcpuExitReason::ExternalInterrupt,
        VirtExitReason::Unknown => VcpuExitReason::Unknown,
    }
}

impl VcpuState {
    /// A virtual CPU bound to nothing, with all registers zero.
    pub fn new() -> (r: Self)
        ensures
            r.bound_tcb == 0 && r.vmspace_paddr == 0 && r.hgatp == 0 && r.vmid == 0,
            r.pending_virq_bitmap == 0 && r.pc == 0,
            forall|i: int| 0 <= i < 32 ==> r.regs@[i] == 0,
            r.exit_reason == VcpuExitReason::NoExit,
            r.exit_detail0 == 0 && r.exit_detail1 == 0 && r.exit_detail2 == 0,
    {
        VcpuState {
            bound_tcb: 0,
            vmspace_paddr: 0,
            hgatp: 0,
            vmid: 0,
            pending_virq_bitmap: 0,
            regs: [0; 32],
            pc: 0,
            exit_reason: VcpuExitReason::NoExit,
            exit_detail0: 0,
            exit_detail1: 0,
            exit_detail2: 0,
        }
    }

    /// Binds the thread `tcb` (zero is refused).
    pub fn bind_tcb(&mut self, tcb: usize) -> (r: Result<(), Error>)
        ensures
            tcb == 0 ==> r == Err::<(), Error>(Error::InvalidArgs) && *final(self) == *old(self),
            tcb != 0 ==> r == Ok::<(), Error>(()) && *final(self) == (VcpuState { bound_tcb: tcb, ..*old(self) }),
    {
        if tcb == 0 {
            return Err(Error::InvalidArgs);
        }
        self.bound_tcb = tcb;
        Ok(())
    }

    /// Binds the guest address space whose root table is at `vmspace_paddr`: its
    /// VM identifier is bits 12..25 of the address; `hgatp` is the translation
    /// register value set up for it (`None` when that failed, recorded as 0).
    pub fn bind_vmspace(&mut self, vmspace_paddr: PhysAddr, hgatp: Option<usize>)
        requires
            vmspace_paddr.0 <= usize::MAX,
        ensures
            *final(self) == (VcpuState {
                vmspace_paddr: vmspace_paddr.0 as usize,
                vmid: ((vmspace_paddr.0 as usize) >> 12usize) & 0x3fff,
                hgatp: match hgatp { Some(h) => h, None => 0 },
                ..*old(self)
            }),
    {
        let pa = vmspace_paddr.0 as usize;
        self.vmspace_paddr = pa;
        self.vmid = (pa >> 12) & 0x3fff;
        self.hgatp = match hgatp {
            Some(h) => h,
            None => 0,
        };
    }

    /// Marks virtual interrupt `irq` pending (one past the word's bits is refused).
    pub fn inject_irq(&mut self, irq: usize) -> (r: Result<(), Error>)
        ensures
            irq >= usize::BITS ==> r == Err::<(), Error>(Error::InvalidArgs) && *final(self) == *old(self),
            irq < usize::BITS ==> r == Ok::<(), Error>(()) && *final(self) == (VcpuState {
                pending_virq_bitmap: old(self).pending_virq_bitmap | (1usize << irq),
                ..*old(self)
            }),
    {
        if irq >= usize::BITS as usize {
            return Err(Error::InvalidArgs);
        }
        self.pending_virq_bitmap = self.pending_virq_bitmap | (1usize << irq);
        Ok(())
    }

    /// Register `reg` (of 32).
    pub fn read_reg(&self, reg: usize) -> (r: Result<usize, Error>)
        ensures
            reg < 32 ==> r == Ok::<usize, Error>(self.regs@[reg as int]),
            reg >= 32 ==> r == Err::<usize, Error>(Error::InvalidArgs),
    {
        if reg < 32 {
            Ok(self.regs[reg])
        } else {
            Err(Error::InvalidArgs)
        }
    }

    /// Sets register `reg` (of 32) to `value`.
    pub fn write_reg(&mut self, reg: usize, value: usize) -> (r: Result<(), Error>)
        ensures
            reg < 32 ==> r == Ok::<(), Error>(()) && final(self).regs@ == old(self).regs@.update(reg as int, value)
                && *final(self) == (VcpuState { regs: final(self).regs, ..*old(self) }),
            reg >= 32 ==> r == Err::<(), Error>(Error::InvalidArgs) && *final(self) == *old(self),
    {
        if reg >= 32 {
            return Err(Error::InvalidArgs);
        }
        self.regs[reg] = value;
        Ok(())
    }

    /// Before a run: a virtual CPU without a bound thread, or without a guest
    /// address space set up, is refused with `InvalidCapability`; without
    /// hardware virtualisation the run is `NotSupported`. Otherwise returns the
    /// state the guest is entered with.
    pub fn prepare_run(&self, virt_enabled: bool) -> (r: Result<VcpuRunState, Error>)
        ensures
            self.bound_tcb == 0 ==> (r matches Err(e) && e == Error::InvalidCapability),
            self.bound_tcb != 0 && (self.vmspace_paddr == 0 || self.hgatp == 0) ==> (r matches Err(e) && e == Error::InvalidCapability),
            self.bound_tcb != 0 && self.vmspace_paddr != 0 && self.hgatp != 0 && !virt_enabled ==> (r matches Err(e) && e == Error::NotSupported),
            self.bound_tcb != 0 && self.vmspace_paddr != 0 && self.hgatp != 0 && virt_enabled ==> (r matches Ok(run)
                && run.regs == self.regs && run.pc == self.pc && run.hgatp == self.hgatp
                && run.pending_virq_bitmap == self.pending_virq_bitmap),
    {
        if self.bound_tcb == 0 {
            return Err(Error::InvalidCapability);
        }
        if self.vmspace_paddr == 0 || self.hgatp == 0 {
            return Err(Error::InvalidCapability);
        }
        if !virt_enabled {
            return Err(Error::NotSupported);
        }
        Ok(VcpuRunState { regs: self.regs, pc: self.pc, hgatp: self.hgatp, pending_virq_bitmap: self.pending_virq_bitmap })
    }

    /// After a run: takes back the guest's registers, program counter and
    /// pending interrupts, and records the exit. Returns the exit reason, the
    /// registers a0..a7 to hand to the bound thread, and, for a guest page fault,
    /// the faulting address to look up in the guest address space.
    pub fn finish_run(&mut self, run: &VcpuRunState, exit: VirtExit) -> (r: (VcpuExitReason, [usize; 8], Option<usize>))
        ensures
            final(self).regs == run.regs,
            final(self).pc == run.pc,
            final(self).pending_virq_bitmap == run.pending_virq_bitmap,
            final(self).exit_reason == exit_reason_of(exit.reason),
            final(self).exit_detail0 == exit.detail0,
            final(self).exit_detail1 == exit.detail1,
            final(self).exit_detail2 == exit.detail2,
            final(self).bound_tcb == old(self).bound_tcb,
            final(self).vmspace_paddr == old(self).vmspace_paddr,
            final(self).hgatp == old(self).hgatp,
            final(self).vmid == old(self).vmid,
            r.0 == exit_reason_of(exit.reason),
            forall|i: int| 0 <= i < 8 ==> r.1@[i] == run.regs@[10 + i],
            r.2 == if exit_reason_of(exit.reason) == VcpuExitReason::GuestPageFault && old(self).vmspace_paddr != 0 {
                Some(exit.detail0)
            } else {
                None::<usize>
            },
    {
        self.regs = run.regs;
        self.pc = run.pc;
        self.pending_virq_bitmap = run.pending_virq_bitmap;
        self.exit_reason = match exit.reason {
            VirtExitReason::NoExit => VcpuExitReason::NoExit,
            VirtExitReason::HostTrap => VcpuExitReason::HostTrap,
            VirtExitReason::GuestPageFault => VcpuExitReason::GuestPageFault,
            VirtExitReason::VirtualInstruction => VcpuExitReason::VirtualInstruction,
            VirtExitReason::ExternalInterrupt => VcpuExitReason::ExternalInterrupt,
            VirtExitReason::TimerInterrupt => VcpuExitReason::ExternalInterrupt,
            VirtExitReason::Unknown => VcpuExitReason::Unknown,
        };
        self.exit_detail0 = exit.detail0;
        self.exit_detail1 = exit.detail1;
        self.exit_detail2 = exit.detail2;
        let args: [usize; 8] = [
            self.regs[10], self.regs[11], self.regs[12], self.regs[13],
            self.regs[14], self.regs[15], self.regs[16], self.regs[17],
        ];
        let fault = if self.exit_reason == VcpuExitReason::GuestPageFault && self.vmspace_paddr != 0 {
            Some(self.exit_detail0)
        } else {
            None
        };
        (self.exit_reason, args, fault)
    }

    /// Writes the guest's state back into the bound thread's trap frame, for
    /// the VMM to read: the program counter and the registers a0..a7.
    pub fn write_back(&self, tf: &mut TrapFrame)
        ensures
            final(tf).epc == self.pc,
            forall|i: int| 0 <= i < 8 ==> final(tf).args@[i] == self.regs@[10 + i],
            final(tf).sp == old(tf).sp && final(tf).tp == old(tf).tp,
            final(tf).kernel_satp == old(tf).kernel_satp,
            final(tf).kernel_hartid == old(tf).kernel_hartid,
            final(tf).kernel_sp == old(tf).kernel_sp,
            final(tf).kernel_trap == old(tf).kernel_trap,
    {
        tf.epc = self.pc;
        tf.set_registers([
            self.regs[10], self.regs[11], self.regs[12], self.regs[13],
            self.regs[14], self.regs[15], self.regs[16], self.regs[17],
        ]);
    }
}

/// The virtual CPU a capability names: refused with `InvalidType` unless it is
/// a virtual-CPU capability; otherwise the object's address.
pub fn vcpu_state_from_cap(cap: &Capability) -> (r: Result<PhysAddr, Error>)
    ensures
        cap.cap_type != CapType::VCPU ==> r == Err::<PhysAddr, Error>(Error::InvalidType),
        cap.cap_type == CapType::VCPU ==> r == Ok::<PhysAddr, Error>(cap.paddr),
{
    if cap.cap_type() != CapType::VCPU {
        return Err(Error::InvalidType);
    }
    Ok(cap.paddr())
}

} // verus!
