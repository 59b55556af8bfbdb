use vstd::prelude::*;
use crate::config::THREAD_PRIORITY_MAX;
use crate::error::Error;
use crate::object::{Object, ObjectClassType};
use crate::timer::Timer;
use crate::libcpu::{LibcpuTrait, MaskOp, masked_once, lemma_masked_once};
use vstd::string::StringSliceAdditionalSpecFns;

verus! {

/// Thread states and flags kept in the status byte of a thread.
#[derive(PartialEq, Eq, Structural, Copy, Clone, Debug)]
pub enum Status {
    Init,
    Close,
    Ready,
    Running,
    SuspendMask,
    StatMask,
    StatYield,
}

/// Initialized, not yet started.
pub const STAT_INIT: u8 = 0x00;
/// Closed.
pub const STAT_CLOSE: u8 = 0x01;
/// Ready to run.
pub const STAT_READY: u8 = 0x02;
/// Running.
pub const STAT_RUNNING: u8 = 0x03;
/// Suspended (the suspend bit).
pub const STAT_SUSPEND_MASK: u8 = 0x04;
/// The bits of the status byte that hold the state.
pub const STAT_MASK: u8 = 0x07;
/// Set when the thread used up its time slice since the last schedule.
pub const STAT_YIELD_MASK: u8 = 0x08;

impl Status {
    /// The value of the state or flag in the status byte.
    pub fn bits(self) -> (b: u8)
        ensures
            b == self.spec_bits(),
    {
        match self {
            Status::Init => STAT_INIT,
            Status::Close => STAT_CLOSE,
            Status::Ready => STAT_READY,
            Status::Running => STAT_RUNNING,
            Status::SuspendMask => STAT_SUSPEND_MASK,
            Status::StatMask => STAT_MASK,
            Status::StatYield => STAT_YIELD_MASK,
        }
    }

    pub open spec fn spec_bits(self) -> u8 {
        match self {
            Status::Init => STAT_INIT,
            Status::Close => STAT_CLOSE,
            Status::Ready => STAT_READY,
            Status::Running => STAT_RUNNING,
            Status::SuspendMask => STAT_SUSPEND_MASK,
            Status::StatMask => STAT_MASK,
            Status::StatYield => STAT_YIELD_MASK,
        }
    }
}

/// The state part of a status byte.
pub open spec fn stat_state(stat: u8) -> u8 {
    stat & STAT_MASK
}

/// `stat` with its state part replaced by `state`, the flags kept.
pub open spec fn with_state(stat: u8, state: u8) -> u8 {
    state | (stat & !STAT_MASK)
}

/// Ways a thread can be suspended.
enum SuspendWithFlag {
    Interruptible,
}

/// Address of the function the thread timer of every thread runs on timeout.
pub const THREAD_TIMEOUT_FUNC: usize = 0;

/// Address of the function a thread returns into when its entry returns.
pub const THREAD_EXIT_FUNC: usize = 1;

/// The stack top handed to the processor port for a new thread: 16 bytes
/// below the end of its stack, in 32-bit addresses.
pub open spec fn stack_top(stack_start: usize, stack_size: u32) -> usize {
    ((stack_start as u32) + stack_size - 16) as usize
}

/// A thread control block.
#[derive(Copy, Clone)]
pub struct Thread {
    /// Saved stack pointer.
    pub sp: usize,
    pub parent: Object,
    /// Address of the entry function.
    pub entry: usize,
    pub parameter: usize,
    pub stack_addr: usize,
    pub stack_size: u32,
    pub error: Error,
    pub number_mask: u32,
    pub current_priority: u8,
    pub init_priority: u8,
    pub stat: u8,
    pub init_tick: u8,
    pub remaining_tick: u8,
    pub thread_timer: Option<Timer>,
    pub timer_run: bool,
}

/// Thread `t` after one tick of its time slice: the ticks left go down by
/// one; when the slice runs out it is reloaded and the thread is marked to
/// yield.
pub open spec fn sliced(t: Thread) -> Thread {
    if t.remaining_tick == 1 {
        Thread { remaining_tick: t.init_tick, stat: t.stat | STAT_YIELD_MASK, ..t }
    } else {
        Thread { remaining_tick: (t.remaining_tick - 1) as u8, ..t }
    }
}

/// Thread `t` put to sleep at tick `now` for `tick` ticks: suspended, with
/// its timer set to run `tick` ticks and to time out at `now + tick`.
pub open spec fn asleep(t: Thread, now: usize, tick: usize) -> Thread {
    Thread {
        stat: with_state(t.stat, STAT_SUSPEND_MASK),
        thread_timer: Some(
            Timer { init_tick: tick, timeout_tick: (now + tick) as usize, ..t.thread_timer.unwrap() },
        ),
        timer_run: true,
        ..t
    }
}

/// The interrupt-mask changes of putting a thread to sleep, `old` before and
/// `new` after: masked around the whole, with the state change masked once
/// inside and, when the thread went to sleep, the start of its timer masked
/// once after that.
pub open spec fn sleep_masks(old: Seq<MaskOp>, new: Seq<MaskOp>, slept: bool) -> bool {
    let o = old.len() as int;
    let n = new.len() as int;
    &&& n == o + (if slept { 6int } else { 4int })
    &&& new.take(o) == old
    &&& new[o] matches MaskOp::Disable(level) && new[n - 1] == MaskOp::Enable(level)
    &&& masked_once(Seq::empty(), new.subrange(o + 1, o + 3))
    &&& slept ==> masked_once(Seq::empty(), new.subrange(o + 3, o + 5))
}

impl Thread {
    /// A thread control block is well formed: its priority is a valid level,
    /// its mask is the bit of that level, and it has its timer.
    pub open spec fn wf(&self) -> bool {
        &&& self.current_priority < THREAD_PRIORITY_MAX
        &&& self.number_mask == 1u32 << self.current_priority
        &&& self.thread_timer is Some
    }

    /// The timeout tick of the thread's timer.
    pub open spec fn spec_timeout_tick(&self) -> usize {
        self.thread_timer.unwrap().timeout_tick
    }

    /// `self` and `other` agree on every field.
    pub open spec fn same_as(&self, other: &Thread) -> bool {
        &&& self.sp == other.sp
        &&& self.parent.name@ == other.parent.name@
        &&& self.parent.kind == other.parent.kind
        &&& self.parent.flag == other.parent.flag
        &&& self.entry == other.entry
        &&& self.parameter == other.parameter
        &&& self.stack_addr == other.stack_addr
        &&& self.stack_size == other.stack_size
        &&& self.error == other.error
        &&& self.number_mask == other.number_mask
        &&& self.current_priority == other.current_priority
        &&& self.init_priority == other.init_priority
        &&& self.stat == other.stat
        &&& self.init_tick == other.init_tick
        &&& self.remaining_tick == other.remaining_tick
        &&& self.thread_timer == other.thread_timer
        &&& self.timer_run == other.timer_run
    }

    fn new(
        entry: usize,
        parameter: usize,
        stack_start: usize,
        stack_size: u32,
        priority: u8,
        tick: u8,
    ) -> (t: Self)
        requires
            priority < THREAD_PRIORITY_MAX,
        ensures
            t.current_priority < THREAD_PRIORITY_MAX,
            t.number_mask == 1u32 << priority,
            t.parent.name@ == Seq::new(crate::config::NAME_MAX as nat, |i: int| 0u8),
            t.parent.flag == 0,
            t.entry == entry,
            t.parameter == parameter,
            t.stack_addr == stack_start,
            t.stack_size == stack_size,
            t.sp == 0,
            t.error == Error::NoError,
            t.current_priority == priority,
            t.init_priority == priority,
            t.stat == STAT_INIT,
            t.init_tick == tick,
            t.remaining_tick == tick,
            t.thread_timer is None,
            !t.timer_run,
    {
        assert(1u32 << priority <= u32::MAX) by (bit_vector);
        Thread {
            parent: Object::new(),
            entry,
            parameter,
            stack_addr: stack_start,
            stack_size,
            sp: 0,
            error: Error::NoError,
            init_priority: priority,
            current_priority: priority,
            number_mask: 1u32 << priority,
            stat: STAT_INIT,
            init_tick: tick,
            remaining_tick: tick,
            thread_timer: None,
            timer_run: false,
        }
    }

    /// A new thread named `name`, of priority `priority` and time slice
    /// `tick`, in state `Init`, with its (not started) timer. The processor
    /// port `libcpu` sets up its stack (see `stack_top`), and the stack
    /// pointer it gives is saved.
    pub fn init(
        name: &str,
        entry: usize,
        parameter: usize,
        stack_start: usize,
        stack_size: u32,
        priority: u8,
        tick: u8,
        libcpu: &dyn LibcpuTrait,
    ) -> (t: Self)
        requires
            priority < THREAD_PRIORITY_MAX,
            16 <= (stack_start as u32) + stack_size <= u32::MAX,
        ensures
            t.wf(),
            t.parent.kind == ObjectClassType::Thread,
            t.parent.name@ == crate::object::padded_name(name.spec_bytes()),
            t.entry == entry,
            t.parameter == parameter,
            t.stack_addr == stack_start,
            t.stack_size == stack_size,
            t.sp == libcpu.stack_frame(entry, parameter, stack_top(stack_start, stack_size), THREAD_EXIT_FUNC),
            t.error == Error::NoError,
            t.current_priority == priority,
            t.init_priority == priority,
            t.stat == STAT_INIT,
            t.init_tick == tick,
            t.remaining_tick == tick,
            t.thread_timer == Some(
                Timer {
                    timeout_func: THREAD_TIMEOUT_FUNC,
                    parameter: 0,
                    init_tick: 0,
                    timeout_tick: 0,
                    flag: 0,
                },
            ),
            !t.timer_run,
    {
        let mut thread = Self::new(entry, parameter, stack_start, stack_size, priority, tick);
        thread.parent.init(ObjectClassType::Thread, name);
        assert(thread.parent.name@ =~= crate::object::padded_name(name.spec_bytes()));
        let top: u32 = (stack_start as u32) + stack_size - 16;
        thread.sp = libcpu.stack_init(entry, parameter, top as usize, THREAD_EXIT_FUNC);
        Timer::init(&mut thread.thread_timer, THREAD_TIMEOUT_FUNC, 0, 0, 0);
        thread
    }

    /// The text of the thread: that of its object (see `object_text`).
    pub fn to_string(&self) -> (s: String)
        ensures
            s@ == crate::object::object_text(self.parent),
    {
        self.parent.to_string()
    }

    /// The top of the thread's stack, where its initial frame is built:
    /// 16 bytes below the end of the stack.
    pub fn stack_top(&self) -> (top: usize)
        requires
            self.stack_size >= 16,
            self.stack_addr + self.stack_size <= usize::MAX,
        ensures
            top == self.stack_addr + self.stack_size - 16,
    {
        self.stack_addr + (self.stack_size as usize) - 16
    }

    /// Whether the thread's timer is running (the thread sleeps on it).
    pub fn timer_run(&self) -> (b: bool)
        ensures
            b == self.timer_run,
    {
        self.timer_run
    }

    /// The tick at which the thread's timer times out.
    pub fn timeout_tick(&self) -> (t: usize)
        requires
            self.thread_timer is Some,
        ensures
            t == self.spec_timeout_tick(),
    {
        self.thread_timer.as_ref().unwrap().timeout_tick()
    }

    /// The thread's timer.
    pub fn thread_timer_mut(&mut self) -> (t: &mut Timer)
        requires
            old(self).thread_timer is Some,
        ensures
            *t == old(self).thread_timer.unwrap(),
            *final(self) == (Thread { thread_timer: Some(*final(t)), ..*old(self) }),
    {
        self.thread_timer.as_mut().unwrap()
    }

    /// Whether every field of the two threads agrees.
    pub fn same(&self, other: &Thread) -> (b: bool)
        ensures
            b == self.same_as(other),
    {
        self.sp == other.sp && self.parent.same(&other.parent) && self.entry == other.entry
            && self.parameter == other.parameter && self.stack_addr == other.stack_addr
            && self.stack_size == other.stack_size && self.error == other.error
            && self.number_mask == other.number_mask && self.current_priority
            == other.current_priority && self.init_priority == other.init_priority && self.stat
            == other.stat && self.init_tick == other.init_tick && self.remaining_tick
            == other.remaining_tick && self.thread_timer == other.thread_timer && self.timer_run
            == other.timer_run
    }

    fn suspend_with_flag(&mut self, suspend_flag: SuspendWithFlag, cpu: &mut Box<dyn LibcpuTrait>) -> (r: Result<(), Error>)
        ensures
            ({
                let state = stat_state(old(self).stat);
                if state != STAT_READY && state != STAT_RUNNING {
                    r == Err::<(), Error>(Error::Error) && *final(self) == *old(self)
                } else {
                    r == Ok::<(), Error>(()) && *final(self) == (Thread {
                        stat: with_state(old(self).stat, STAT_SUSPEND_MASK),
                        ..*old(self)
                    })
                }
            }),
            masked_once(old(cpu).mask_ops(), final(cpu).mask_ops()),
    {
        let level = cpu.interrupt_disable();
        let stat = self.stat & STAT_MASK;
        if stat != STAT_READY && stat != STAT_RUNNING {
            cpu.interrupt_enable(level);
            proof {
                lemma_masked_once(old(cpu).mask_ops(), level);
            }
            return Err(Error::Error);
        }
        let state = match suspend_flag {
            SuspendWithFlag::Interruptible => STAT_SUSPEND_MASK,
        };
        self.stat = state | (self.stat & !STAT_MASK);
        cpu.interrupt_enable(level);
        proof {
            lemma_masked_once(old(cpu).mask_ops(), level);
        }
        Ok(())
    }

    /// Suspends a ready or running thread and starts its timer to wake it
    /// `tick` ticks after `now`, with interrupts masked through `cpu`
    /// meanwhile; a thread in another state is left as it is and
    /// `Error::Error` comes back.
    pub fn sleep(&mut self, now: usize, tick: usize, cpu: &mut Box<dyn LibcpuTrait>) -> (r: Result<(), Error>)
        requires
            old(self).thread_timer is Some,
            now + tick <= usize::MAX,
        ensures
            ({
                let state = stat_state(old(self).stat);
                if state != STAT_READY && state != STAT_RUNNING {
                    r == Err::<(), Error>(Error::Error) && *final(self) == *old(self)
                } else {
                    r == Ok::<(), Error>(()) && *final(self) == asleep(*old(self), now, tick)
                }
            }),
            sleep_masks(old(cpu).mask_ops(), final(cpu).mask_ops(), r is Ok),
    {
        let ghost m0 = cpu.mask_ops();
        let level = cpu.interrupt_disable();
        let ghost m1 = cpu.mask_ops();
        let result = self.suspend_with_flag(SuspendWithFlag::Interruptible, cpu);
        let ghost m2 = cpu.mask_ops();
        match result {
            Ok(()) => {
                let timer = self.thread_timer.as_mut().unwrap();
                timer.control(tick);
                timer.start(now, cpu);
                self.timer_run = true;
            },
            Err(_e) => {},
        }
        let ghost m3 = cpu.mask_ops();
        cpu.interrupt_enable(level);
        proof {
            let o = m0.len() as int;
            let m4 = cpu.mask_ops();
            assert(m1 == m0.push(MaskOp::Disable(level)));
            assert(masked_once(m1, m2));
            assert forall|i: int| 0 <= i < m1.len() implies m2[i] == m1[i] by {
                assert(m2.take(m1.len() as int)[i] == m2[i]);
            }
            assert(m3.len() >= m2.len());
            assert forall|i: int| 0 <= i < m2.len() implies m3[i] == m2[i] by {
                if result is Ok {
                    assert(masked_once(m2, m3));
                    assert(m3.take(m2.len() as int)[i] == m3[i]);
                }
            }
            assert(m4 == m3.push(MaskOp::Enable(level)));
            assert(m4.take(o) =~= m0);
            assert(m4[o] == MaskOp::Disable(level));
            assert(m2.subrange(o + 1, o + 3) =~= seq![m2[o + 1], m2[o + 2]]);
            assert(m4.subrange(o + 1, o + 3) =~= m2.subrange(o + 1, o + 3));
            assert(m4.subrange(o + 1, o + 3).take(0) =~= Seq::<MaskOp>::empty());
            if result is Ok {
                assert(m4.subrange(o + 3, o + 5) =~= seq![m3[o + 3], m3[o + 4]]);
                assert(m4.subrange(o + 3, o + 5).take(0) =~= Seq::<MaskOp>::empty());
            }
        }
        result
    }

    /// The saved stack pointer.
    pub fn sp_mut(&mut self) -> (sp: &mut usize)
        ensures
            *sp == old(self).sp,
            *final(self) == (Thread { sp: *final(sp), ..*old(self) }),
    {
        &mut self.sp
    }

    /// The thread's priority.
    pub fn current_priority(&self) -> (p: u8)
        ensures
            p == self.current_priority,
    {
        self.current_priority
    }

    /// The bit of the thread's priority level.
    pub fn number_mask(&self) -> (m: u32)
        ensures
            m == self.number_mask,
    {
        self.number_mask
    }

    /// The status byte.
    pub fn stat(&self) -> (s: u8)
        ensures
            s == self.stat,
    {
        self.stat
    }

    /// Replaces the status byte.
    pub fn set_stat(&mut self, stat: u8)
        ensures
            *final(self) == (Thread { stat, ..*old(self) }),
    {
        self.stat = stat;
    }

    /// Uses up one tick of the time slice. When the slice runs out the slice
    /// is reloaded and 0 comes back; otherwise the ticks left come back.
    pub fn tick_decrease(&mut self) -> (left: u8)
        requires
            old(self).remaining_tick > 0,
        ensures
            old(self).remaining_tick == 1 ==> left == 0 && *final(self) == (Thread {
                remaining_tick: old(self).init_tick,
                ..*old(self)
            }),
            old(self).remaining_tick > 1 ==> left == old(self).remaining_tick - 1 && left > 0
                && *final(self) == (Thread { remaining_tick: left, ..*old(self) }),
    {
        self.remaining_tick -= 1;
        if self.remaining_tick == 0 {
            self.remaining_tick = self.init_tick;
            return 0;
        }
        self.remaining_tick
    }
}

} // verus!
