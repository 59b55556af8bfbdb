use vstd::prelude::*;
use crate::thread::Thread;

verus! {

/// A change of the interrupt mask made through a processor port: masking,
/// which gives the level before, or restoring a level.
pub enum MaskOp {
    Disable(isize),
    Enable(isize),
}

/// What a processor port provides to the kernel: context switches, the
/// interrupt mask, and the set-up of a new thread's stack. Stack pointers,
/// entry points and parameters are machine addresses.
pub trait LibcpuTrait {
    fn context_switch_to(&self, sp: usize);

    fn context_switch(&self, from_sp: usize, to_sp: usize);

    fn context_switch_interrupt(
        &self,
        from_sp: usize,
        to_sp: usize,
        from_thread: &mut Thread,
        to_thread: &mut Thread,
    );

    /// The changes of the interrupt mask made through this port, oldest
    /// first.
    open spec fn mask_ops(&self) -> Seq<MaskOp> {
        Seq::empty()
    }

    /// Masks interrupts and gives the level before.
    fn interrupt_disable(&mut self) -> (level: isize)
        ensures
            final(self).mask_ops() == old(self).mask_ops().push(MaskOp::Disable(level)),
    ;

    /// Restores the interrupt level `level`.
    fn interrupt_enable(&mut self, level: isize)
        ensures
            final(self).mask_ops() == old(self).mask_ops().push(MaskOp::Enable(level)),
    ;

    /// The stack pointer that setting up a new thread's stack gives: the
    /// thread starts at `entry` with `parameter`, its stack top is
    /// `stack_addr`, and it returns into `exit`.
    spec fn stack_frame(&self, entry: usize, parameter: usize, stack_addr: usize, exit: usize) -> usize;

    fn stack_init(&self, entry: usize, parameter: usize, stack_addr: usize, exit: usize) -> (sp: usize)
        ensures
            sp == self.stack_frame(entry, parameter, stack_addr, exit),
    ;
}

/// Masking and restoring the level given is masking once.
pub proof fn lemma_masked_once(m: Seq<MaskOp>, level: isize)
    ensures
        masked_once(m, m.push(MaskOp::Disable(level)).push(MaskOp::Enable(level))),
{
    assert(m.push(MaskOp::Disable(level)).push(MaskOp::Enable(level)).take(m.len() as int) =~= m);
}

/// `new` is `old` with interrupts masked once and the level given then
/// restored.
pub open spec fn masked_once(old: Seq<MaskOp>, new: Seq<MaskOp>) -> bool {
    &&& new.len() == old.len() + 2
    &&& new.take(old.len() as int) == old
    &&& new[old.len() as int] matches MaskOp::Disable(level) && new[old.len() + 1int] == MaskOp::Enable(level)
}

/// `s` is a run of maskings, each followed by the restore of the level it
/// gave.
pub open spec fn mask_pairs(s: Seq<MaskOp>) -> bool
    decreases s.len(),
{
    if s.len() == 0 {
        true
    } else if s.len() == 1 {
        false
    } else {
        &&& s[0] matches MaskOp::Disable(level) && s[1] == MaskOp::Enable(level)
        &&& mask_pairs(s.skip(2))
    }
}

/// `new` is `old` with maskings added, each followed by the restore of the
/// level it gave.
pub open spec fn masked_in_pairs(old: Seq<MaskOp>, new: Seq<MaskOp>) -> bool {
    &&& new.len() >= old.len()
    &&& new.take(old.len() as int) == old
    &&& mask_pairs(new.skip(old.len() as int))
}

/// Two runs of masked pairs make one.
pub proof fn lemma_mask_pairs_concat(a: Seq<MaskOp>, b: Seq<MaskOp>)
    requires
        mask_pairs(a),
        mask_pairs(b),
    ensures
        mask_pairs(a + b),
    decreases a.len(),
{
    if a.len() == 0 {
        assert(a + b =~= b);
    } else {
        lemma_mask_pairs_concat(a.skip(2), b);
        assert((a + b).skip(2) =~= a.skip(2) + b);
    }
}

/// Nothing added is masked in pairs.
pub proof fn lemma_masked_in_pairs_refl(m: Seq<MaskOp>)
    ensures
        masked_in_pairs(m, m),
{
    assert(m.take(m.len() as int) =~= m);
    assert(m.skip(m.len() as int) =~= Seq::<MaskOp>::empty());
}

/// Masked in pairs, then in pairs again, is masked in pairs.
pub proof fn lemma_masked_in_pairs_trans(a: Seq<MaskOp>, b: Seq<MaskOp>, c: Seq<MaskOp>)
    requires
        masked_in_pairs(a, b),
        masked_in_pairs(b, c),
    ensures
        masked_in_pairs(a, c),
{
    lemma_mask_pairs_concat(b.skip(a.len() as int), c.skip(b.len() as int));
    assert(c.skip(a.len() as int) =~= b.skip(a.len() as int) + c.skip(b.len() as int)) by {
        assert forall|i: int| 0 <= i < c.len() - a.len() implies #[trigger] c.skip(a.len() as int)[i]
            == (b.skip(a.len() as int) + c.skip(b.len() as int))[i] by {
            if i < b.len() - a.len() {
                assert(c.take(b.len() as int)[a.len() + i] == b[a.len() + i]);
            }
        }
    }
    assert(c.take(a.len() as int) =~= a) by {
        assert forall|i: int| 0 <= i < a.len() implies #[trigger] c.take(a.len() as int)[i] == a[i] by {
            assert(c.take(b.len() as int)[i] == b[i]);
            assert(b.take(a.len() as int)[i] == a[i]);
        }
    }
}

/// Masking once is masking in pairs.
pub proof fn lemma_masked_once_in_pairs(a: Seq<MaskOp>, b: Seq<MaskOp>)
    requires
        masked_once(a, b),
    ensures
        masked_in_pairs(a, b),
{
    let s = b.skip(a.len() as int);
    assert(s.skip(2) =~= Seq::<MaskOp>::empty());
    assert(mask_pairs(s.skip(2)));
    assert(s[0] == b[a.len() as int]);
    assert(s[1] == b[a.len() + 1int]);
}

} // verus!
