//! Thread control blocks.
use vstd::prelude::*;
use super::asid::{AsidManager, next_asid_state};
use super::context::{ProcContext, TrapFrame};
use crate::cap::{Badge, Capability};
use crate::mem::{PhysAddr, VirtAddr};

verus! {

/// Pages of a kernel stack.
pub const KSTACK_PAGES: usize = 4;

/// The scheduling state of a thread.
#[derive(Clone, Copy, PartialEq, Eq, Structural, Debug)]
pub enum ThreadState {
    Inactive,
    Suspended,
    Ready,
    Running,
    BlockedSend,
    BlockedRecv,
    BlockedCall,
}

/// A thread control block. Threads are named by an identifier (the address of their
/// control block); queues of threads hold identifiers.
#[derive(Clone, Copy, PartialEq, Eq, Structural, Debug)]
pub struct TCB {
    pub ref_count: usize,
    pub context: ProcContext,
    pub base_priority: u8,
    pub priority: u8,
    pub timeslice: usize,
    pub timeslice_limit: usize,
    pub state: ThreadState,
    pub affinity: usize,
    pub cpu_id: usize,
    pub kstack: Option<Capability>,
    pub trapframe: Option<Capability>,
    pub cspace_root: Option<Capability>,
    pub vspace_root: Option<Capability>,
    pub fault_handler: Option<Capability>,
    pub bound_vcpu: Option<Capability>,
    pub ipc_partner: Option<usize>,
    pub ipc_active_ep: Option<usize>,
    pub ipc_caller: Option<usize>,
    pub ipc_badge: Badge,
    pub ipc_cap: Option<Capability>,
    pub wake_pending: bool,
    pub utcb_frame: Option<Capability>,
    pub utcb_va: usize,
    pub trapframe_va: usize,
    pub privileged: bool,
    pub native: bool,
    pub upcall_delivery_armed: bool,
}

/// The `satp` value that selects Sv39 translation with `asid` and the root table at `paddr`.
pub open spec fn mmu_value(paddr: u64, asid: u16) -> u64 {
    (8u64 << 60u64) | ((asid as u64) << 44u64) | (paddr >> 12u64)
}

/// The `satp` value that selects Sv39 translation with `asid` and the root table at `paddr`.
pub fn get_mmu_register(paddr: PhysAddr, asid: u16) -> (r: u64)
    ensures
        r == mmu_value(paddr.0, asid),
{
    (8u64 << 60) | ((asid as u64) << 44) | (paddr.0 >> 12)
}

impl TCB {
    pub open spec fn spec_new() -> TCB {
        TCB {
            ref_count: 0,
            context: ProcContext::spec_zero(),
            base_priority: 0,
            priority: 0,
            timeslice: 0,
            timeslice_limit: 0,
            state: ThreadState::Inactive,
            affinity: usize::MAX,
            cpu_id: 0,
            kstack: None,
            trapframe: None,
            cspace_root: None,
            vspace_root: None,
            fault_handler: None,
            bound_vcpu: None,
            ipc_partner: None,
            ipc_active_ep: None,
            ipc_caller: None,
            ipc_badge: Badge(0),
            ipc_cap: None,
            wake_pending: false,
            utcb_frame: None,
            utcb_va: 0,
            trapframe_va: 0,
            privileged: false,
            native: true,
            upcall_delivery_armed: false,
        }
    }

    /// An inactive thread with no resources, not bound to any CPU.
    pub fn new() -> (r: Self)
        ensures
            r == Self::spec_new(),
    {
        TCB {
            ref_count: 0,
            context: ProcContext::new(),
            base_priority: 0,
            priority: 0,
            timeslice: 0,
            timeslice_limit: 0,
            state: ThreadState::Inactive,
            affinity: usize::MAX,
            cpu_id: 0,
            kstack: None,
            trapframe: None,
            cspace_root: None,
            vspace_root: None,
            fault_handler: None,
            bound_vcpu: None,
            ipc_partner: None,
            ipc_active_ep: None,
            ipc_caller: None,
            ipc_badge: Badge::null(),
            ipc_cap: None,
            wake_pending: false,
            utcb_frame: None,
            utcb_va: 0,
            trapframe_va: 0,
            privileged: false,
            native: true,
            upcall_delivery_armed: false,
        }
    }

    /// Prepares the thread to enter user mode at `entry` with the stack
    /// `stack_top` and thread pointer `tp`: the trap frame gets those and what
    /// the trap path needs to come back into the kernel (`satp` for the
    /// thread's address space, the CPU, the kernel stack top and the trap
    /// handler); the kernel context resumes at `user_return` on the kernel stack.
    pub fn set_entrypoint(
        &mut self,
        tf: &mut TrapFrame,
        satp: u64,
        entry: usize,
        stack_top: usize,
        tp: usize,
        cpu: usize,
        trap_handler: usize,
        user_return: usize,
    )
        requires
            old(self).kstack.is_some(),
            old(self).kstack.unwrap().paddr.0 + KSTACK_PAGES * 4096 <= usize::MAX,
        ensures
            ({
                let top = (old(self).kstack.unwrap().paddr.0 + KSTACK_PAGES * 4096) as usize;
                &&& final(tf).epc == entry && final(tf).sp == stack_top && final(tf).tp == tp
                &&& final(tf).args == old(tf).args
                &&& final(tf).kernel_satp == satp && final(tf).kernel_hartid == cpu
                &&& final(tf).kernel_sp == top && final(tf).kernel_trap == trap_handler
                &&& *final(self) == (TCB { context: ProcContext { ra: user_return, sp: top, ..old(self).context }, ..*old(self) })
            }),
    {
        let top = self.get_kstack_top().0 as usize;
        tf.configure(entry, stack_top, tp);
        tf.configure_kernel(satp, cpu, top, trap_handler);
        self.context.configure(user_return, top);
    }

    /// The top of the kernel stack: its base plus the stack's size.
    pub fn get_kstack_top(&self) -> (r: VirtAddr)
        requires
            self.kstack.is_some(),
            self.kstack.unwrap().paddr.0 + KSTACK_PAGES * 4096 <= u64::MAX,
        ensures
            r.0 == self.kstack.unwrap().paddr.0 + KSTACK_PAGES * 4096,
    {
        let cap = self.kstack.unwrap();
        VirtAddr(cap.obj_ptr().0 + (KSTACK_PAGES * 4096) as u64)
    }

    /// The kernel address of the trap frame.
    pub fn get_tf_va(&self) -> (r: VirtAddr)
        requires
            self.trapframe.is_some(),
        ensures
            r.0 == self.trapframe.unwrap().paddr.0,
    {
        let cap = self.trapframe.unwrap();
        cap.obj_ptr()
    }

    /// The `satp` value for this thread's address space. A stale ASID token is first
    /// replaced by a fresh one, recorded in the address-space capability; the second
    /// result tells whether that allocation began a new generation (TLB flush owed).
    pub fn mmu_register(&mut self, asids: &mut AsidManager) -> (r: (u64, bool))
        requires
            old(self).vspace_root.is_some(),
            old(asids).generation < u64::MAX,
        ensures
            ({
                let cap = old(self).vspace_root.unwrap();
                let id = (cap.data & 0xFFFF) as u16;
                let generation = (cap.data >> 16usize) as u64;
                if id != 0 && generation == old(asids).generation {
                    &&& r == (mmu_value(cap.paddr.0, id), false)
                    &&& *final(self) == *old(self)
                    &&& *final(asids) == *old(asids)
                } else {
                    let (c, g) = next_asid_state(old(asids).current_asid, old(asids).generation);
                    &&& final(asids).current_asid == c && final(asids).generation == g
                    &&& r == (mmu_value(cap.paddr.0, c), (old(asids).current_asid as int) >= super::asid::MAX_ASID - 1)
                    &&& final(self).vspace_root == Some(Capability { data: (c as usize) | (((g as usize) << 16usize) as usize), ..cap })
                    &&& *final(self) == (TCB { vspace_root: final(self).vspace_root, ..*old(self) })
                }
            }),
    {
        let mut cap = self.vspace_root.unwrap();
        let (paddr, id) = cap.vspace_info();
        if asids.check(id) {
            return (get_mmu_register(paddr, id.id), false);
        }
        let (fresh, flush) = asids.allocate();
        cap.set_asid(fresh);
        self.vspace_root = Some(cap);
        (get_mmu_register(paddr, fresh.id), flush)
    }

    /// Installs the thread's address spaces, UTCB frame, trap frame and kernel stack.
    pub fn configure(
        &mut self,
        cspace: &Capability,
        vspace: &Capability,
        utcb_frame: &Capability,
        trapframe: &Capability,
        kstack: &Capability,
    )
        ensures
            *final(self) == (TCB {
                cspace_root: Some(*cspace),
                vspace_root: Some(*vspace),
                utcb_frame: Some(*utcb_frame),
                trapframe: Some(*trapframe),
                kstack: Some(*kstack),
                ..*old(self)
            }),
    {
        self.cspace_root = Some(*cspace);
        self.vspace_root = Some(*vspace);
        self.utcb_frame = Some(*utcb_frame);
        self.trapframe = Some(*trapframe);
        self.kstack = Some(*kstack);
    }

    /// Sets the base priority; the current priority is raised to it, never lowered.
    pub fn set_priority(&mut self, prio: u8)
        ensures
            *final(self) == (TCB {
                base_priority: prio,
                priority: if prio > old(self).priority { prio } else { old(self).priority },
                ..*old(self)
            }),
    {
        self.base_priority = prio;
        if prio > self.priority {
            self.priority = prio;
        }
    }

    pub fn set_address(&mut self, utcb_va: usize, trapframe_va: usize)
        ensures
            *final(self) == (TCB { utcb_va, trapframe_va, ..*old(self) }),
    {
        self.utcb_va = utcb_va;
        self.trapframe_va = trapframe_va;
    }

    pub fn set_fault_handler(&mut self, ep: Capability)
        ensures
            *final(self) == (TCB { fault_handler: Some(ep), ..*old(self) }),
    {
        self.fault_handler = Some(ep);
    }

    pub fn set_bound_vcpu(&mut self, vcpu: Capability)
        ensures
            *final(self) == (TCB { bound_vcpu: Some(vcpu), ..*old(self) }),
    {
        self.bound_vcpu = Some(vcpu);
    }

    pub fn set_affinity(&mut self, cpuid: usize)
        ensures
            *final(self) == (TCB { affinity: cpuid, ..*old(self) }),
    {
        self.affinity = cpuid;
    }

    /// A suspended or inactive thread becomes ready; any other thread is left alone.
    pub fn resume(&mut self) -> (r: bool)
        ensures
            r == (old(self).state == ThreadState::Suspended || old(self).state == ThreadState::Inactive),
            *final(self) == if r { TCB { state: ThreadState::Ready, ..*old(self) } } else { *old(self) },
    {
        if self.state == ThreadState::Suspended || self.state == ThreadState::Inactive {
            self.state = ThreadState::Ready;
            true
        } else {
            false
        }
    }

    pub fn suspend(&mut self)
        ensures
            *final(self) == (TCB { state: ThreadState::Suspended, ..*old(self) }),
    {
        self.state = ThreadState::Suspended;
    }
}

} // verus!
