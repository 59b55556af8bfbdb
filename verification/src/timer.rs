use vstd::prelude::*;
use crate::libcpu::{LibcpuTrait, masked_once, lemma_masked_once};

verus! {

/// A one-shot timer: it times out `init_tick` ticks after it was started.
#[derive(PartialEq, Eq, Structural, Copy, Clone, Debug)]
pub struct Timer {
    /// Address of the function to run on timeout.
    pub timeout_func: usize,
    /// Argument handed to the timeout function.
    pub parameter: usize,
    pub init_tick: usize,
    pub timeout_tick: usize,
    pub flag: u8,
}

impl Timer {
    /// Stores a fresh, not yet started timer in `timer` and hands it back.
    pub fn init(
        timer: &mut Option<Self>,
        timeout_func: usize,
        parameter: usize,
        time: usize,
        flag: u8,
    ) -> (t: &mut Self)
        ensures
            *t == (Timer { timeout_func, parameter, init_tick: time, timeout_tick: 0, flag }),
            *final(timer) == Some(*final(t)),
    {
        *timer = Some(Timer { timeout_func, parameter, init_tick: time, timeout_tick: 0, flag });
        timer.as_mut().unwrap()
    }

    /// The tick at which the timer times out.
    pub fn timeout_tick(&self) -> (t: usize)
        ensures
            t == self.timeout_tick,
    {
        self.timeout_tick
    }

    /// Starts the timer at tick `now`, with interrupts masked through `cpu`
    /// meanwhile.
    pub fn start(&mut self, now: usize, cpu: &mut Box<dyn LibcpuTrait>)
        requires
            now + old(self).init_tick <= usize::MAX,
        ensures
            *final(self) == (Timer { timeout_tick: (now + old(self).init_tick) as usize, ..*old(self) }),
            masked_once(old(cpu).mask_ops(), final(cpu).mask_ops()),
    {
        let level = cpu.interrupt_disable();
        self.timeout_tick = now + self.init_tick;
        cpu.interrupt_enable(level);
        proof {
            lemma_masked_once(old(cpu).mask_ops(), level);
        }
    }

    /// Sets how many ticks the timer runs once started.
    pub fn control(&mut self, tick: usize)
        ensures
            *final(self) == (Timer { init_tick: tick, ..*old(self) }),
    {
        self.init_tick = tick;
    }
}

} // verus!
