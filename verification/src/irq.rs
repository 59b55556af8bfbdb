use vstd::prelude::*;
use crate::libcpu::{LibcpuTrait, MaskOp};

verus! {

/// Interrupt nesting depth.
pub struct Interrupt {
    nest: usize,
}

impl Interrupt {
    /// The depth, as the counter holds it.
    pub closed spec fn depth(&self) -> usize {
        self.nest
    }

    /// Outside any interrupt.
    pub fn init() -> (i: Interrupt)
        ensures
            i.depth() == 0,
    {
        Interrupt { nest: 0 }
    }

    /// One interrupt level deeper (the counter wraps around).
    pub fn enter(&mut self)
        ensures
            final(self).depth() == old(self).depth().wrapping_add(1),
    {
        self.nest = self.nest.wrapping_add(1);
    }

    /// One interrupt level less deep (the counter wraps around).
    pub fn leave(&mut self)
        ensures
            final(self).depth() == old(self).depth().wrapping_sub(1),
    {
        self.nest = self.nest.wrapping_sub(1);
    }

    /// The current depth.
    pub fn nest(&self) -> (n: usize)
        ensures
            n == self.depth(),
    {
        self.nest
    }
}

/// Leaving an interrupt undoes entering it.
pub proof fn lemma_leave_undoes_enter(n: usize)
    ensures
        n.wrapping_add(1).wrapping_sub(1) == n,
{
}

/// Exclusive access to a value while interrupts are masked through the
/// processor port `libcpu`; `level` is the interrupt mask that was in force
/// before and is restored on `release`.
pub struct InterruptGuard<'a, T> {
    pub data: &'a mut T,
    pub libcpu: &'a mut Box<dyn LibcpuTrait>,
    pub level: isize,
}

impl<'a, T> InterruptGuard<'a, T> {
    /// Masks interrupts through `libcpu` and guards `data`, remembering the
    /// level the port gave.
    pub fn new(data: &'a mut T, libcpu: &'a mut Box<dyn LibcpuTrait>) -> (g: InterruptGuard<'a, T>)
        ensures
            (*g.libcpu).mask_ops() == (*old(libcpu)).mask_ops().push(MaskOp::Disable(g.level)),
            *g.data == *old(data),
            *final(g.data) == *final(data),
            *final(g.libcpu) == *final(libcpu),
    {
        let level = libcpu.interrupt_disable();
        InterruptGuard { data, libcpu, level }
    }

    /// The guarded value.
    pub fn data(&mut self) -> (d: &mut T)
        ensures
            *d == *old(self).data,
            *final(self).data == *final(d),
            final(self).level == old(self).level,
            *final(self).libcpu == *old(self).libcpu,
    {
        self.data
    }

    /// The mask to restore.
    pub fn saved_level(&self) -> (l: isize)
        ensures
            l == self.level,
    {
        self.level
    }

    /// Ends the guard: the saved level is restored through the port.
    pub fn release(&mut self)
        ensures
            (*final(self).libcpu).mask_ops() == (*old(self).libcpu).mask_ops().push(MaskOp::Enable(old(self).level)),
            *final(self).data == *old(self).data,
            final(self).level == old(self).level,
    {
        self.libcpu.interrupt_enable(self.level);
    }
}

} // verus!
