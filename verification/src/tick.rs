use vstd::prelude::*;
use crate::libcpu::{LibcpuTrait, MaskOp, lemma_masked_once, masked_in_pairs, lemma_masked_in_pairs_trans,
    lemma_masked_once_in_pairs, lemma_masked_in_pairs_refl};
use crate::scheduler::{prio_int, ScheduleOutcome, Scheduler};
use crate::thread::STAT_YIELD_MASK;

verus! {

/// The interrupt-mask changes of a tick, `old` before and `new` after:
/// maskings each followed by the restore of the level it gave, except that
/// when the running thread's slice `ran_out`, the level of the tick's own
/// masking is restored once more right after the scheduler's decision.
pub open spec fn tick_masks(old: Seq<MaskOp>, new: Seq<MaskOp>, ran_out: bool) -> bool {
    &&& !ran_out ==> masked_in_pairs(old, new)
    &&& ran_out ==> exists|mid: Seq<MaskOp>| {
        &&& #[trigger] masked_in_pairs(old, mid)
        &&& mid.len() == old.len() + 4
        &&& mid[old.len() as int] matches MaskOp::Disable(level) && masked_in_pairs(mid.push(MaskOp::Enable(level)), new)
    }
}

/// The running thread of `s` is on the last tick of its time slice.
pub open spec fn slice_runs_out(s: &Scheduler) -> bool {
    s.current() matches Some(t) && t.remaining_tick == 1
}

/// The system tick counter.
pub struct Tick {
    value: usize,
}

impl Tick {
    /// The count.
    pub closed spec fn count(&self) -> usize {
        self.value
    }

    /// A counter at 0.
    pub fn new() -> (t: Self)
        ensures
            t.count() == 0,
    {
        Tick { value: 0 }
    }

    /// One system tick: the counter goes up (wrapping around); with
    /// interrupts masked through `cpu`, the last thread of `scheduler` is put
    /// back and the running thread uses a tick of its time slice; when the
    /// slice is used up it is marked as yielding and the scheduler decides;
    /// then the sleeping threads whose time has come are woken. `nest` is the
    /// interrupt depth. The scheduling decisions come back in order.
    #[verifier::spinoff_prover]
    pub fn increase(&mut self, scheduler: &mut Scheduler, cpu: &mut Box<dyn LibcpuTrait>, nest: usize) -> (outcomes: Vec<ScheduleOutcome>)
        requires
            old(scheduler).wf(),
            old(scheduler).current() matches Some(t) ==> t.remaining_tick > 0,
        ensures
            final(self).count() == old(self).count().wrapping_add(1),
            final(scheduler).wf(),
            old(scheduler).current() is None ==> outcomes@.len() == 0 && Scheduler::same_state(final(scheduler), old(scheduler)),
            outcomes@.len() > 0 ==> final(scheduler).current() is Some
                && final(scheduler).none_ready_above(prio_int(final(scheduler).current().unwrap().current_priority)),
            Scheduler::ticked(old(scheduler), final(scheduler), final(self).count(), nest, outcomes@),
            tick_masks(old(cpu).mask_ops(), final(cpu).mask_ops(), slice_runs_out(old(scheduler))),
    {
        self.value = self.value.wrapping_add(1);
        let mut outcomes: Vec<ScheduleOutcome> = Vec::new();
        let level = cpu.interrupt_disable();
        scheduler.solve_last_thread();
        let ghost before = *scheduler;
        let ghost put = *scheduler;
        let mut yielded = false;
        match scheduler.current_thread_mut() {
            Some(thread) => {
                if thread.tick_decrease() == 0 {
                    thread.set_stat(thread.stat() | STAT_YIELD_MASK);
                    yielded = true;
                }
            },
            None => {},
        }
        proof {
            Scheduler::lemma_wf_frame(&before, scheduler);
        }
        cpu.interrupt_enable(level);
        let ghost m1 = cpu.mask_ops();
        proof {
            lemma_masked_once(old(cpu).mask_ops(), level);
            lemma_masked_once_in_pairs(old(cpu).mask_ops(), m1);
        }
        let ghost used = *scheduler;
        proof {
            assert(Scheduler::slice_used(&put, &used));
            assert(yielded <==> (put.current() is Some && put.current().unwrap().remaining_tick == 1));
        }
        let ghost mut mid: Seq<MaskOp> = m1;
        if yielded {
            let outcome = scheduler.schedule(nest, cpu);
            outcomes.push(outcome);
            proof {
                mid = cpu.mask_ops();
                lemma_masked_once_in_pairs(m1, mid);
                lemma_masked_in_pairs_trans(old(cpu).mask_ops(), m1, mid);
                assert(mid.take(m1.len() as int)[old(cpu).mask_ops().len() as int] == m1[old(cpu).mask_ops().len() as int]);
            }
            cpu.interrupt_enable(level);
        }
        let ghost m2 = cpu.mask_ops();
        proof {
            if !yielded {
                lemma_masked_in_pairs_refl(m1);
            }
        }
        let ghost after_yield = *scheduler;
        let ghost first = outcomes@;
        let value = self.value;
        let woken = scheduler.thread_timer_check(value, nest, cpu);
        proof {
            if !yielded {
                lemma_masked_in_pairs_trans(old(cpu).mask_ops(), m2, cpu.mask_ops());
            } else {
                assert(m2 == mid.push(MaskOp::Enable(level)));
                assert(masked_in_pairs(old(cpu).mask_ops(), mid));
            }
        }
        let mut i: usize = 0;
        while i < woken.len()
            invariant
                i <= woken@.len(),
                outcomes@ == first + woken@.take(i as int),
            decreases woken@.len() - i,
        {
            outcomes.push(woken[i]);
            i += 1;
            assert(outcomes@ =~= first + woken@.take(i as int));
        }
        proof {
            assert(woken@.take(i as int) =~= woken@);
            if yielded {
                assert(outcomes@.skip(1) =~= woken@);
            }
            assert(Scheduler::tick_steps(old(scheduler), &put, &used, &after_yield, scheduler, value, nest, outcomes@));
            if woken@.len() == 0 {
                assert(Scheduler::same_state(scheduler, &after_yield));
                let cur = scheduler.current();
                if cur is Some && yielded {
                    assert forall|q: int| 0 <= q < prio_int(cur.unwrap().current_priority) implies #[trigger] scheduler.ready(q).len() == 0 by {
                        if q < crate::config::THREAD_PRIORITY_MAX {
                            assert(scheduler.ready(q) == after_yield.ready(q));
                        }
                    }
                }
            }
        }
        outcomes
    }

    /// The count.
    pub fn get(&self) -> (v: usize)
        ensures
            v == self.count(),
    {
        self.value
    }

    /// Sets the count.
    pub fn set(&mut self, tick: usize)
        ensures
            final(self).count() == tick,
    {
        self.value = tick;
    }
}

} // verus!
