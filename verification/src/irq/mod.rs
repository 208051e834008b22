//! Interrupt routing: the table that binds each interrupt line to a notification.
use vstd::prelude::*;
use crate::cap::{Badge, CapType, Capability};
use crate::error::Error;
use crate::mem::PhysAddr;

pub mod timer;

verus! {

/// Number of interrupt lines.
pub const MAX_IRQS: usize = 1024;

/// The notification bound to an interrupt line, and whether the line is enabled.
#[derive(Clone, Copy, PartialEq, Eq, Structural, Debug)]
pub struct IrqSlot {
    pub notification: Option<Capability>,
    pub enabled: bool,
}

impl IrqSlot {
    pub fn new() -> (r: Self)
        ensures
            r.notification.is_none() && !r.enabled,
    {
        Self { notification: None, enabled: false }
    }
}

/// An interrupt line number.
#[derive(Clone, Copy, PartialEq, Eq, Structural, Debug)]
pub struct IRQ(pub usize);

impl IRQ {
    pub fn new(id: usize) -> (r: Self)
        ensures
            r.0 == id,
    {
        Self(id)
    }

    pub fn id(&self) -> (r: usize)
        ensures
            r == self.0,
    {
        self.0
    }
}

/// The interrupt table: one slot per line.
pub struct IrqTable {
    pub slots: Vec<IrqSlot>,
}

/// What to do with a claimed interrupt once it is masked and completed.
#[derive(Clone, Copy, PartialEq, Eq, Structural, Debug)]
pub enum IrqAction {
    /// Notify the endpoint at this address with this badge.
    NotifyEndpoint(PhysAddr, Badge),
    /// No notification is bound: unmask the line again.
    Unmask,
}

/// What a claimed interrupt leads to, given the table's slots.
pub open spec fn claim_action(slots: Seq<IrqSlot>, id: usize) -> Result<IrqAction, Error> {
    if id >= MAX_IRQS {
        Err(Error::InvalidAddress)
    } else {
        match slots[id as int].notification {
            Some(cap) => if cap.cap_type == CapType::Endpoint {
                Ok(IrqAction::NotifyEndpoint(cap.paddr, cap.badge))
            } else {
                Err(Error::InvalidCapability)
            },
            None => Ok(IrqAction::Unmask),
        }
    }
}

impl IrqTable {
    pub open spec fn wf(&self) -> bool {
        self.slots@.len() == MAX_IRQS
    }

    /// A table with every line unbound and disabled.
    pub fn new() -> (r: Self)
        ensures
            r.wf(),
            forall|i: int| 0 <= i < MAX_IRQS ==> #[trigger] r.slots@[i] == (IrqSlot { notification: None, enabled: false }),
    {
        let mut slots: Vec<IrqSlot> = Vec::new();
        let mut k: usize = 0;
        while k < MAX_IRQS
            invariant
                slots@.len() == k,
                k <= MAX_IRQS,
                forall|i: int| 0 <= i < k ==> #[trigger] slots@[i] == (IrqSlot { notification: None, enabled: false }),
            decreases MAX_IRQS - k,
        {
            slots.push(IrqSlot::new());
            k += 1;
        }
        IrqTable { slots }
    }

    /// Binds `cap` to line `irq` and enables the line. The caller then unmasks it
    /// at the interrupt controller.
    pub fn bind_notification(&mut self, irq: usize, cap: &Capability) -> (r: Result<(), Error>)
        requires
            old(self).wf(),
        ensures
            final(self).wf(),
            irq >= MAX_IRQS ==> r == Err::<(), Error>(Error::InvalidAddress) && final(self).slots@ == old(self).slots@,
            irq < MAX_IRQS ==> r == Ok::<(), Error>(())
                && final(self).slots@ == old(self).slots@.update(irq as int, IrqSlot { notification: Some(*cap), enabled: true }),
    {
        if irq >= MAX_IRQS {
            return Err(Error::InvalidAddress);
        }
        self.slots.set(irq, IrqSlot { notification: Some(*cap), enabled: true });
        Ok(())
    }

    /// Unbinds line `irq` and disables it.
    pub fn clear_notification(&mut self, irq: usize) -> (r: Result<(), Error>)
        requires
            old(self).wf(),
        ensures
            final(self).wf(),
            irq >= MAX_IRQS ==> r == Err::<(), Error>(Error::InvalidAddress) && final(self).slots@ == old(self).slots@,
            irq < MAX_IRQS ==> r == Ok::<(), Error>(())
                && final(self).slots@ == old(self).slots@.update(irq as int, IrqSlot { notification: None, enabled: false }),
    {
        if irq >= MAX_IRQS {
            return Err(Error::InvalidAddress);
        }
        self.slots.set(irq, IrqSlot { notification: None, enabled: false });
        Ok(())
    }

    /// Decides what a claimed interrupt `id` leads to: its bound endpoint is
    /// notified with the capability's badge; a bound capability that is not an
    /// endpoint is an error; an unbound line is unmasked again.
    pub fn handle_claimed(&self, id: usize) -> (r: Result<IrqAction, Error>)
        requires
            self.wf(),
        ensures
            r == claim_action(self.slots@, id),
    {
        if id >= MAX_IRQS {
            return Err(Error::InvalidAddress);
        }
        match self.slots[id].notification {
            Some(cap) => {
                if cap.cap_type() == CapType::Endpoint {
                    Ok(IrqAction::NotifyEndpoint(cap.paddr(), cap.get_badge()))
                } else {
                    Err(Error::InvalidCapability)
                }
            },
            None => Ok(IrqAction::Unmask),
        }
    }
}

/// An interrupt line bound to an endpoint delivers to that endpoint with the
/// capability's badge; once the binding is cleared, a claim only unmasks the line;
/// other lines are not affected by either.
pub proof fn law_bind_then_claim(slots: Seq<IrqSlot>, irq: usize, cap: Capability, other: usize)
    requires
        slots.len() == MAX_IRQS,
        irq < MAX_IRQS,
        cap.cap_type == CapType::Endpoint,
        other != irq,
    ensures
        claim_action(slots.update(irq as int, IrqSlot { notification: Some(cap), enabled: true }), irq)
            == Ok::<IrqAction, Error>(IrqAction::NotifyEndpoint(cap.paddr, cap.badge)),
        claim_action(slots.update(irq as int, IrqSlot { notification: None, enabled: false }), irq)
            == Ok::<IrqAction, Error>(IrqAction::Unmask),
        claim_action(slots.update(irq as int, IrqSlot { notification: Some(cap), enabled: true }), other)
            == claim_action(slots, other),
{
}

} // verus!
