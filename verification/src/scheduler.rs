use vstd::prelude::*;
use crate::bits::{bit_set, lemma_clear_bit, lemma_mask_widen, lemma_set_bit, lowest_set_bit, lemma_zero_no_bit};
use crate::config::THREAD_PRIORITY_MAX;
use crate::libcpu::{LibcpuTrait, masked_once, lemma_masked_once, masked_in_pairs, lemma_masked_in_pairs_refl,
    lemma_masked_in_pairs_trans, lemma_masked_once_in_pairs};
use crate::list::{List, insert_position, len_int, index_int};
use crate::thread::{Thread, STAT_INIT, STAT_MASK, STAT_READY, STAT_RUNNING, STAT_SUSPEND_MASK, STAT_YIELD_MASK, with_state, sliced};

verus! {

/// What the caller has to do after a scheduling decision.
#[derive(PartialEq, Eq, Structural, Copy, Clone, Debug)]
pub enum ScheduleOutcome {
    /// The current thread keeps running.
    Stay,
    /// Switch from the last thread to the current one, from thread context.
    Switch,
    /// Switch from the last thread to the current one, from interrupt context.
    SwitchInInterrupt,
}

/// The timeout tick of a thread's timer (0 for a thread without one).
pub open spec fn timeout_key(t: Thread) -> usize {
    match t.thread_timer {
        Some(timer) => timer.timeout_tick,
        None => 0,
    }
}

/// The timeout tick of a thread's timer (0 for a thread without one).
pub fn timeout_of(t: &Thread) -> (k: usize)
    ensures
        k == timeout_key(*t),
{
    match &t.thread_timer {
        Some(timer) => timer.timeout_tick,
        None => 0,
    }
}

/// Whether `a` wakes up strictly before `b`.
pub fn wakes_before(a: &Thread, b: &Thread) -> (r: bool)
    ensures
        r == (timeout_key(*a) < timeout_key(*b)),
{
    let ka = timeout_of(a);
    let kb = timeout_of(b);
    ka < kb
}

/// `new` is `old` with `t` put after every thread that wakes no later and
/// before every thread that wakes later.
pub open spec fn timer_inserted(old: Seq<Thread>, new: Seq<Thread>, t: Thread) -> bool {
    exists|i: int|
        0 <= i <= old.len() && new == old.insert(i, t) && (forall|j: int|
            0 <= j < i ==> timeout_key(#[trigger] old[j]) <= timeout_key(t)) && (i < old.len()
            ==> timeout_key(t) < timeout_key(old[i]))
}

/// Inserting a thread at its place keeps the threads in order.
pub proof fn lemma_timer_insert_sorted(old: Seq<Thread>, new: Seq<Thread>, t: Thread)
    requires
        sorted_by_timeout(old),
        timer_inserted(old, new, t),
    ensures
        sorted_by_timeout(new),
        new.len() == old.len() + 1,
{
    let i = choose|i: int|
        0 <= i <= old.len() && new == old.insert(i, t) && (forall|j: int|
            0 <= j < i ==> timeout_key(#[trigger] old[j]) <= timeout_key(t)) && (i < old.len()
            ==> timeout_key(t) < timeout_key(old[i]));
    assert forall|a: int, b: int| 0 <= a <= b < new.len() implies timeout_key(new[a]) <= timeout_key(new[b]) by {
        if a < i {
            assert(new[a] == old[a]);
            if b < i {
                assert(new[b] == old[b]);
            } else if b == i {
            } else {
                assert(new[b] == old[b - 1]);
                assert(timeout_key(old[a]) <= timeout_key(t));
                assert(timeout_key(t) < timeout_key(old[i]));
                assert(timeout_key(old[i]) <= timeout_key(old[b - 1]));
            }
        } else if a == i {
            if b > i {
                assert(new[b] == old[b - 1]);
                assert(timeout_key(old[i]) <= timeout_key(old[b - 1]));
            }
        } else {
            assert(new[a] == old[a - 1]);
            assert(new[b] == old[b - 1]);
        }
    }
}

/// Whether a sleeping thread's wake-up tick has passed at tick `tick`.
pub fn expired(tick: &usize, t: &Thread) -> (r: bool)
    ensures
        r == (*tick > timeout_key(*t)),
{
    *tick > timeout_of(t)
}

/// A priority as an integer.
pub open spec fn prio_int(p: u8) -> int {
    p as int
}

/// The threads of `s` in list order.
pub open spec fn opt_seq(t: Option<Thread>) -> Seq<Thread> {
    match t {
        Some(x) => seq![x],
        None => Seq::empty(),
    }
}

/// The threads are in order of their timeout ticks.
pub open spec fn sorted_by_timeout(s: Seq<Thread>) -> bool {
    forall|i: int, j: int| 0 <= i <= j < s.len() ==> timeout_key(s[i]) <= timeout_key(s[j])
}

/// The priority-based scheduler: a ready list per priority level, a bitmap of
/// the non-empty levels, the running thread, the thread switched away from,
/// and the sleeping threads ordered by wake-up tick.
pub struct Scheduler {
    ready_priority_group: usize,
    last_thread: Option<Thread>,
    current_thread: Option<Thread>,
    priority_table_heap: Vec<Option<List<Thread>>>,
    thread_timer_list: List<Thread>,
}

impl Scheduler {
    /// Bitmap of the priority levels that have ready threads.
    pub closed spec fn ready_group(&self) -> usize {
        self.ready_priority_group
    }

    /// The ready threads of priority `p`, in the order they will run.
    pub closed spec fn ready(&self, p: int) -> Seq<Thread> {
        self.priority_table_heap@[p].unwrap()@
    }

    /// The running thread.
    pub closed spec fn current(&self) -> Option<Thread> {
        self.current_thread
    }

    /// The thread last switched away from, not yet put back.
    pub closed spec fn last(&self) -> Option<Thread> {
        self.last_thread
    }

    /// The sleeping threads, in order of wake-up tick.
    pub closed spec fn timer_threads(&self) -> Seq<Thread> {
        self.thread_timer_list@
    }

    /// Every priority level has its ready list.
    pub closed spec fn initialized(&self) -> bool {
        &&& self.priority_table_heap@.len() == THREAD_PRIORITY_MAX
        &&& forall|p: int| 0 <= p < THREAD_PRIORITY_MAX ==> #[trigger] self.priority_table_heap@[p] is Some
    }

    /// A ready-list entry is well formed: a well-formed thread of that level.
    pub open spec fn ready_entry_wf(&self, p: int, i: int) -> bool {
        &&& self.ready(p)[i].wf()
        &&& self.ready(p)[i].current_priority == p
    }

    /// The scheduler invariant.
    pub open spec fn wf(&self) -> bool {
        &&& self.initialized()
        &&& self.ready_group() <= 0xffff_ffff
        &&& forall|p: int|
            0 <= p < THREAD_PRIORITY_MAX ==> (#[trigger] bit_set(self.ready_group(), p as usize)
                <==> self.ready(p).len() > 0)
        &&& forall|p: int, i: int|
            0 <= p < THREAD_PRIORITY_MAX && 0 <= i < self.ready(p).len()
                ==> #[trigger] self.ready_entry_wf(p, i)
        &&& forall|i: int| 0 <= i < self.timer_threads().len() ==> #[trigger] self.timer_threads()[i].wf()
        &&& sorted_by_timeout(self.timer_threads())
        &&& self.current() is Some ==> self.current().unwrap().wf()
        &&& self.last() is Some ==> self.last().unwrap().wf()
        &&& self.current() is None ==> self.last() is None && self.timer_threads().len() == 0
    }

    /// No thread is ready.
    pub open spec fn none_ready(&self) -> bool {
        forall|p: int| 0 <= p < THREAD_PRIORITY_MAX ==> #[trigger] self.ready(p).len() == 0
    }

    /// No ready thread has a priority above (numerically below) `prio`.
    pub open spec fn none_ready_above(&self, prio: int) -> bool {
        forall|p: int| 0 <= p < prio ==> #[trigger] self.ready(p).len() == 0
    }

    /// The invariant only looks at the bitmap, the ready lists, the sleeping
    /// threads, and the running and last threads.
    pub proof fn lemma_wf_frame(a: &Self, b: &Self)
        requires
            a.wf(),
            b.initialized(),
            b.ready_group() == a.ready_group(),
            forall|p: int| 0 <= p < THREAD_PRIORITY_MAX ==> #[trigger] b.ready(p) == a.ready(p),
            forall|i: int| 0 <= i < b.timer_threads().len() ==> #[trigger] b.timer_threads()[i].wf(),
            sorted_by_timeout(b.timer_threads()),
            b.current() is Some ==> b.current().unwrap().wf(),
            b.last() is Some ==> b.last().unwrap().wf(),
            b.current() is None ==> b.last() is None && b.timer_threads().len() == 0,
        ensures
            b.wf(),
    {
        assert forall|p: int|
            0 <= p < THREAD_PRIORITY_MAX implies (#[trigger] bit_set(b.ready_group(), p as usize)
                <==> b.ready(p).len() > 0) by {
            assert(a.ready(p) == b.ready(p));
        }
        assert forall|p: int, i: int|
            0 <= p < THREAD_PRIORITY_MAX && 0 <= i < b.ready(p).len()
                implies #[trigger] b.ready_entry_wf(p, i) by {
            assert(a.ready(p) == b.ready(p));
            assert(a.ready_entry_wf(p, i));
        }
    }

    /// A scheduler with no ready lists yet, no thread and an empty bitmap.
    pub fn new() -> (s: Self)
        ensures
            !s.initialized(),
            s.table_len() == 0,
            forall|p: int| 0 <= p < THREAD_PRIORITY_MAX ==> !#[trigger] s.has_list(p),
            s.ready_group() == 0,
            s.current() is None,
            s.last() is None,
            s.timer_threads().len() == 0,
    {
        Scheduler {
            ready_priority_group: 0,
            last_thread: None,
            current_thread: None,
            priority_table_heap: Vec::new(),
            thread_timer_list: List::new(),
        }
    }

    /// Gives every priority level an empty ready list.
    pub fn init(&mut self)
        ensures
            final(self).initialized(),
            forall|p: int| 0 <= p < THREAD_PRIORITY_MAX ==> #[trigger] final(self).ready(p).len() == 0,
            final(self).ready_group() == old(self).ready_group(),
            final(self).current() == old(self).current(),
            final(self).last() == old(self).last(),
            final(self).timer_threads() == old(self).timer_threads(),
            (old(self).ready_group() == 0 && old(self).current() is None && old(self).last() is None
                && old(self).timer_threads().len() == 0) ==> final(self).wf(),
    {
        let mut table: Vec<Option<List<Thread>>> = Vec::new();
        let mut value: usize = 0;
        while value < THREAD_PRIORITY_MAX
            invariant
                value <= THREAD_PRIORITY_MAX,
                table@.len() == value,
                forall|p: int| 0 <= p < value ==> #[trigger] table@[p] is Some && table@[p].unwrap()@.len() == 0,
            decreases THREAD_PRIORITY_MAX - value,
        {
            table.push(Some(List::new()));
            value += 1;
        }
        self.priority_table_heap = table;
        proof {
            if old(self).ready_group() == 0 {
                assert forall|p: int| 0 <= p < THREAD_PRIORITY_MAX implies (#[trigger] bit_set(
                    self.ready_group(),
                    p as usize,
                ) <==> self.ready(p).len() > 0) by {
                    lemma_zero_no_bit(p as usize);
                }
            }
        }
    }

    /// The sleeping threads.
    pub fn thread_timer_list_mut(&mut self) -> (l: &mut List<Thread>)
        ensures
            l@ == old(self).timer_threads(),
            final(self).timer_threads() == final(l)@,
            final(self).ready_group() == old(self).ready_group(),
            forall|p: int| #[trigger] final(self).ready(p) == old(self).ready(p),
            final(self).initialized() == old(self).initialized(),
            final(self).current() == old(self).current(),
            final(self).last() == old(self).last(),
    {
        &mut self.thread_timer_list
    }

    /// The thread as it goes into a ready list: state `Ready`, flags kept.
    pub open spec fn as_ready(t: Thread) -> Thread {
        Thread { stat: with_state(t.stat, STAT_READY), ..t }
    }

    /// The ready list of level `p` after `t` joins it: in front when its
    /// yield flag is set, at the back otherwise.
    pub open spec fn joined(s: Seq<Thread>, t: Thread) -> Seq<Thread> {
        if t.stat & STAT_YIELD_MASK != 0 {
            seq![t] + s
        } else {
            s.push(t)
        }
    }

    /// Puts a thread into its ready list, unless it is the running thread.
    #[verifier::spinoff_prover]
    fn insert_ready(&mut self, thread: Thread)
        requires
            old(self).wf(),
            thread.wf(),
        ensures
            final(self).wf(),
            final(self).current() == old(self).current(),
            final(self).last() == old(self).last(),
            final(self).timer_threads() == old(self).timer_threads(),
            (old(self).current() is Some && thread.same_as(&old(self).current().unwrap())) ==> (
                forall|p: int| 0 <= p < THREAD_PRIORITY_MAX ==> #[trigger] final(self).ready(p) == old(self).ready(p)),
            !(old(self).current() is Some && thread.same_as(&old(self).current().unwrap())) ==> (
                forall|p: int| 0 <= p < THREAD_PRIORITY_MAX ==> #[trigger] final(self).ready(p) == if p == thread.current_priority {
                    Self::joined(old(self).ready(p), Self::as_ready(thread))
                } else {
                    old(self).ready(p)
                }),
    {
        let mut thread = thread;
        match &self.current_thread {
            Some(current) => {
                if thread.same(current) {
                    thread.set_stat(STAT_RUNNING | (thread.stat() & !STAT_MASK));
                    return;
                }
            },
            None => {},
        }
        thread.set_stat(STAT_READY | (thread.stat() & !STAT_MASK));
        let prio = thread.current_priority() as usize;
        let mask = thread.number_mask() as usize;
        proof {
            lemma_mask_widen(thread.current_priority);
        }
        let ghost g = self.ready_priority_group;
        if (thread.stat() & STAT_YIELD_MASK) != 0 {
            self.priority_table_heap[prio].as_mut().unwrap().push_front(thread);
        } else {
            self.priority_table_heap[prio].as_mut().unwrap().push_back(thread);
        }
        self.ready_priority_group = self.ready_priority_group | mask;
        proof {
            assert forall|p: int| 0 <= p < THREAD_PRIORITY_MAX implies (#[trigger] bit_set(
                self.ready_group(),
                p as usize,
            ) <==> self.ready(p).len() > 0) by {
                lemma_set_bit(g, prio, p as usize);
            }
            lemma_set_bit(g, prio, 0);
            assert forall|p: int, i: int|
                0 <= p < THREAD_PRIORITY_MAX && 0 <= i < self.ready(p).len()
                    implies #[trigger] self.ready_entry_wf(p, i) by {
                if p == prio {
                    if (thread.stat & STAT_YIELD_MASK) != 0 {
                        if i > 0 {
                            assert(old(self).ready_entry_wf(p, i - 1));
                        }
                    } else {
                        if i < old(self).ready(p).len() {
                            assert(old(self).ready_entry_wf(p, i));
                        }
                    }
                } else {
                    assert(old(self).ready_entry_wf(p, i));
                }
            }
        }
    }

    /// The ready lists of `new` are those of `old` after `thread` was put
    /// into its ready list the way `insert_thread` does it.
    pub open spec fn ready_after_insert(old: &Self, new: &Self, thread: Thread) -> bool {
        if old.current() is Some && thread.same_as(&old.current().unwrap()) {
            forall|p: int| 0 <= p < THREAD_PRIORITY_MAX ==> #[trigger] new.ready(p) == old.ready(p)
        } else {
            forall|p: int|
                0 <= p < THREAD_PRIORITY_MAX ==> #[trigger] new.ready(p) == if p
                    == thread.current_priority {
                    Self::joined(old.ready(p), Self::as_ready(thread))
                } else {
                    old.ready(p)
                }
        }
    }

    /// `new` is `old` after the last thread was put back (see
    /// `solve_last_thread`): nothing changes without one; a thread whose timer
    /// runs joins the sleeping threads in wake-up order; any other joins its
    /// ready list.
    pub open spec fn last_put_back(old: &Self, new: &Self) -> bool {
        &&& new.last() is None
        &&& new.current() == old.current()
        &&& old.last() is None ==> (forall|p: int| 0 <= p < THREAD_PRIORITY_MAX ==> #[trigger] new.ready(p) == old.ready(p))
            && new.timer_threads() == old.timer_threads()
        &&& old.last() is Some && old.last().unwrap().timer_run ==> (forall|p: int| 0 <= p < THREAD_PRIORITY_MAX ==> #[trigger] new.ready(p) == old.ready(p))
            && timer_inserted(old.timer_threads(), new.timer_threads(), old.last().unwrap())
        &&& old.last() is Some && !old.last().unwrap().timer_run ==> Self::ready_after_insert(old, new, old.last().unwrap())
            && new.timer_threads() == old.timer_threads()
    }

    /// Puts the thread last switched away from back: with the sleeping
    /// threads when its timer runs, into its ready list otherwise.
    pub fn solve_last_thread(&mut self)
        requires
            old(self).wf(),
        ensures
            final(self).wf(),
            Self::last_put_back(old(self), final(self)),
            old(self).last() is None ==> final(self).ready_group() == old(self).ready_group(),
            old(self).last() is None ==> *final(self) == *old(self),
    {
        match self.last_thread {
            Some(thread) => {
                self.last_thread = None;
                proof {
                    Self::lemma_wf_frame(old(self), self);
                }
                if thread.timer_run() {
                    let ghost before = self.thread_timer_list@;
                    self.thread_timer_list.insert_with_cmp(thread, wakes_before);
                    proof {
                        let k = choose|k: int|
                            insert_position(before, thread, wakes_before, k)
                                && self.thread_timer_list@ == before.insert(k, thread);
                        assert forall|j: int| 0 <= j < k implies timeout_key(#[trigger] before[j])
                            <= timeout_key(thread) by {
                            assert(wakes_before.ensures((&thread, &before[j]), false));
                        }
                        if k < before.len() {
                            assert(wakes_before.ensures((&thread, &before[k]), true));
                        }
                        assert(timer_inserted(before, self.thread_timer_list@, thread));
                        lemma_timer_insert_sorted(before, self.thread_timer_list@, thread);
                        assert forall|i: int| 0 <= i < self.timer_threads().len() implies #[trigger] self.timer_threads()[i].wf() by {
                            if i < k { assert(self.timer_threads()[i] == before[i]); }
                            else if i > k { assert(self.timer_threads()[i] == before[i - 1]); }
                        }
                        Self::lemma_wf_frame(old(self), self);
                    }
                } else {
                    self.insert_ready(thread);
                }
            },
            None => {},
        }
    }

    /// `new` is `old` after `insert_thread(thread)`: the last thread was put
    /// back, then `thread` joined its ready list (unless it is the running
    /// thread).
    pub open spec fn inserted(old: &Self, new: &Self, thread: Thread) -> bool {
        exists|mid: Self| {
            &&& #[trigger] Self::last_put_back(old, &mid)
            &&& Self::ready_after_insert(&mid, new, thread)
            &&& new.timer_threads() == mid.timer_threads()
        }
    }

    /// Puts a thread into its ready list and marks it ready, with interrupts
    /// masked through `cpu` meanwhile; the running thread itself is left
    /// where it is.
    pub fn insert_thread(&mut self, thread: Thread, cpu: &mut Box<dyn LibcpuTrait>)
        requires
            old(self).wf(),
            thread.wf(),
        ensures
            masked_once(old(cpu).mask_ops(), final(cpu).mask_ops()),
            final(self).wf(),
            final(self).current() == old(self).current(),
            final(self).last() is None,
            Self::inserted(old(self), final(self), thread),
            old(self).last() is None ==> Self::ready_after_insert(old(self), final(self), thread)
                && final(self).timer_threads() == old(self).timer_threads(),
    {
        self.solve_last_thread();
        let ghost mid = *self;
        let level = cpu.interrupt_disable();
        self.insert_ready(thread);
        cpu.interrupt_enable(level);
        proof {
            lemma_masked_once(old(cpu).mask_ops(), level);
        }
        assert(Self::ready_after_insert(&mid, self, thread));
        assert(Self::last_put_back(old(self), &mid));
        proof {
            if old(self).last() is None {
                if old(self).current() is Some && thread.same_as(&old(self).current().unwrap()) {
                    assert forall|p: int| 0 <= p < THREAD_PRIORITY_MAX implies #[trigger] self.ready(p) == old(self).ready(p) by {
                        assert(mid.ready(p) == old(self).ready(p));
                    }
                } else {
                    assert forall|p: int| 0 <= p < THREAD_PRIORITY_MAX implies #[trigger] self.ready(p) == if p
                        == thread.current_priority {
                        Self::joined(old(self).ready(p), Self::as_ready(thread))
                    } else {
                        old(self).ready(p)
                    } by {
                        assert(mid.ready(p) == old(self).ready(p));
                    }
                }
            }
        }
    }

    /// `p` is the highest priority (lowest level) that has a ready thread.
    pub open spec fn is_highest_ready(&self, p: int) -> bool {
        &&& 0 <= p < THREAD_PRIORITY_MAX
        &&& self.ready(p).len() > 0
        &&& self.none_ready_above(p)
    }

    /// Any ready thread exactly when the bitmap is not empty.
    proof fn lemma_group_empty(&self)
        requires
            self.wf(),
        ensures
            (self.ready_group() == 0) == self.none_ready(),
    {
        if self.ready_group() == 0 {
            assert forall|p: int| 0 <= p < THREAD_PRIORITY_MAX implies #[trigger] self.ready(p).len() == 0 by {
                lemma_zero_no_bit(p as usize);
            }
        } else {
            crate::bits::lemma_nonzero_has_bit(self.ready_group());
            let q = choose|q: usize| q < 32 && #[trigger] bit_set(self.ready_group(), q);
            assert(bit_set(self.ready_group(), (q as int) as usize));
            assert(self.ready(q as int).len() > 0);
        }
    }

    /// Takes the first thread of the highest non-empty priority level off
    /// its ready list and stores that level in `highest_prio`.
    fn get_highest_priority_thread(&mut self, highest_prio: &mut u8) -> (t: Option<Thread>)
        requires
            old(self).wf(),
            old(self).ready_group() != 0,
        ensures
            final(self).wf(),
            old(self).is_highest_ready(*final(highest_prio) as int),
            t == Some(old(self).ready(*final(highest_prio) as int)[0]),
            forall|p: int| 0 <= p < THREAD_PRIORITY_MAX ==> #[trigger] final(self).ready(p) == if p == *final(highest_prio) {
                old(self).ready(p).drop_first()
            } else {
                old(self).ready(p)
            },
            final(self).current() == old(self).current(),
            final(self).last() == old(self).last(),
            final(self).timer_threads() == old(self).timer_threads(),
    {
        let highest = lowest_set_bit(self.ready_priority_group);
        *highest_prio = highest;
        let ghost g = self.ready_priority_group;
        proof {
            assert forall|p: int| 0 <= p < highest implies #[trigger] self.ready(p).len() == 0 by {
                assert(!bit_set(g, p as usize));
            }
            assert(bit_set(g, highest as usize));
            assert(self.ready_entry_wf(highest as int, 0));
        }
        let list = self.priority_table_heap[highest as usize].as_mut().unwrap();
        let thread = list.pop_front();
        let empty = list.is_empty();
        if empty {
            let mask = thread.as_ref().unwrap().number_mask() as usize;
            proof {
                lemma_mask_widen(highest);
            }
            self.ready_priority_group = self.ready_priority_group & !mask;
            proof {
                assert forall|p: int| 0 <= p < THREAD_PRIORITY_MAX implies (#[trigger] bit_set(
                    self.ready_group(),
                    p as usize,
                ) <==> self.ready(p).len() > 0) by {
                    lemma_clear_bit(g, highest as usize, p as usize);
                }
                lemma_clear_bit(g, highest as usize, 0);
            }
        }
        proof {
            assert forall|p: int, i: int|
                0 <= p < THREAD_PRIORITY_MAX && 0 <= i < self.ready(p).len()
                    implies #[trigger] self.ready_entry_wf(p, i) by {
                if p == highest {
                    assert(old(self).ready_entry_wf(p, i + 1));
                } else {
                    assert(old(self).ready_entry_wf(p, i));
                }
            }
            if !empty {
                assert forall|p: int| 0 <= p < THREAD_PRIORITY_MAX implies (#[trigger] bit_set(
                    self.ready_group(),
                    p as usize,
                ) <==> self.ready(p).len() > 0) by {
                    assert(bit_set(g, p as usize) <==> old(self).ready(p).len() > 0);
                }
            }
        }
        thread
    }

    /// The thread `prev` keeps the processor against a ready thread of
    /// level `p`: it is running and of higher priority, or of the same
    /// priority with its time slice not used up.
    pub open spec fn keeps_running(prev: Thread, p: int) -> bool {
        &&& prev.stat & STAT_MASK == STAT_RUNNING
        &&& (prev.current_priority < p || (prev.current_priority == p && prev.stat
            & STAT_YIELD_MASK == 0))
    }

    /// One scheduling step from `old` to `new` with `p` the highest ready
    /// priority of `old`: the first thread of level `p` is taken off its
    /// list; if the running thread keeps the processor, or is that very
    /// thread, it goes back to the end of the list and the running thread
    /// stays (marked running); otherwise it becomes the running thread and
    /// the previous one the last thread (its yield flag cleared).
    pub open spec fn schedule_step(old: &Self, new: &Self, p: int, nest: usize, outcome: ScheduleOutcome) -> bool {
        let prev = old.current().unwrap();
        let next = old.ready(p)[0];
        let switch = !Self::keeps_running(prev, p) && !next.same_as(&prev);
        &&& old.is_highest_ready(p)
        &&& switch ==> {
            &&& new.current() == Some(Thread { stat: with_state(next.stat, STAT_RUNNING), ..next })
            &&& new.last() == Some(Thread { stat: prev.stat & !STAT_YIELD_MASK, ..prev })
            &&& forall|q: int| 0 <= q < THREAD_PRIORITY_MAX ==> #[trigger] new.ready(q) == if q == p {
                old.ready(q).drop_first()
            } else {
                old.ready(q)
            }
            &&& outcome == if nest == 0 { ScheduleOutcome::Switch } else { ScheduleOutcome::SwitchInInterrupt }
        }
        &&& !switch ==> {
            &&& new.current() == Some(Thread { stat: with_state(prev.stat, STAT_RUNNING), ..prev })
            &&& new.last() is None
            &&& forall|q: int| 0 <= q < THREAD_PRIORITY_MAX ==> #[trigger] new.ready(q) == if q == p {
                old.ready(q).drop_first().push(next)
            } else {
                old.ready(q)
            }
            &&& outcome == ScheduleOutcome::Stay
        }
    }

    /// The scheduling decision, once the last thread has been put back.
    #[verifier::spinoff_prover]
    fn schedule_ready(&mut self, nest: usize) -> (outcome: ScheduleOutcome)
        requires
            old(self).wf(),
            old(self).current() is Some,
            old(self).last() is None,
        ensures
            final(self).wf(),
            final(self).current() is Some,
            final(self).none_ready_above(final(self).current().unwrap().current_priority as int),
            final(self).timer_threads() == old(self).timer_threads(),
            old(self).none_ready() ==> outcome == ScheduleOutcome::Stay && *final(self) == *old(self),
            !old(self).none_ready() ==> exists|p: int| #[trigger] Self::schedule_step(old(self), final(self), p, nest, outcome),
    {
        proof {
            self.lemma_group_empty();
        }
        if self.ready_priority_group == 0 {
            proof {
                let cur = self.current().unwrap();
                assert forall|q: int| 0 <= q < cur.current_priority implies #[trigger] self.ready(q).len() == 0 by {
                    if q < THREAD_PRIORITY_MAX { assert(self.ready(q).len() == 0); }
                }
            }
            return ScheduleOutcome::Stay;
        }
        let mut highest_ready_priority: u8 = 0;
        let binding = self.get_highest_priority_thread(&mut highest_ready_priority);
        let next_thread = binding.unwrap();
        let mut prev_thread = self.current_thread.unwrap();
        let ghost p = highest_ready_priority as int;
        let ghost mid = *self;
        proof {
            assert(old(self).ready_entry_wf(p, 0));
            assert(old(self).is_highest_ready(p));
        }
        let mut to_thread = next_thread;
        if (prev_thread.stat() & STAT_MASK) == STAT_RUNNING {
            if prev_thread.current_priority() < highest_ready_priority {
                to_thread = prev_thread;
            } else if prev_thread.current_priority() == highest_ready_priority
                && (prev_thread.stat() & STAT_YIELD_MASK) == 0 {
                to_thread = prev_thread;
            }
        }
        assert(to_thread == if Self::keeps_running(prev_thread, p) { prev_thread } else { next_thread });
        if !to_thread.same(&prev_thread) {
            if (prev_thread.stat() & STAT_YIELD_MASK) != 0 {
                prev_thread.set_stat(prev_thread.stat() & !STAT_YIELD_MASK);
            } else {
                let st = prev_thread.stat;
                assert(st & !STAT_YIELD_MASK == st) by (bit_vector)
                    requires st & STAT_YIELD_MASK == 0;
            }
            let mut current = next_thread;
            current.set_stat(STAT_RUNNING | (current.stat() & !STAT_MASK));
            self.current_thread = Some(current);
            self.last_thread = Some(prev_thread);
            proof {
                assert(old(self).ready_entry_wf(p, 0));
                Self::lemma_wf_frame(&mid, self);
                assert forall|q: int| 0 <= q < p implies #[trigger] self.ready(q).len() == 0 by {
                    assert(mid.ready(q) == old(self).ready(q));
                    assert(old(self).ready(q).len() == 0);
                }
                let prev = old(self).current().unwrap();
                let next = old(self).ready(p)[0];
                assert(!Self::keeps_running(prev, p));
                assert(!next.same_as(&prev));
                assert(self.current() == Some(Thread { stat: with_state(next.stat, STAT_RUNNING), ..next }));
                assert(self.last() == Some(Thread { stat: prev.stat & !STAT_YIELD_MASK, ..prev }));
                assert forall|q: int| 0 <= q < THREAD_PRIORITY_MAX implies #[trigger] self.ready(q) == if q == p {
                        old(self).ready(q).drop_first()
                    } else {
                        old(self).ready(q)
                    } by {
                    assert(mid.ready(q) == self.ready(q));
                }
            }
            let outcome = if nest == 0 {
                ScheduleOutcome::Switch
            } else {
                ScheduleOutcome::SwitchInInterrupt
            };
            assert(Self::schedule_step(old(self), self, p, nest, outcome));
            outcome
        } else {
            let mask = next_thread.number_mask() as usize;
            let prio = next_thread.current_priority() as usize;
            proof {
                lemma_mask_widen(next_thread.current_priority);
            }
            let ghost g = self.ready_priority_group;
            self.ready_priority_group = self.ready_priority_group | mask;
            self.priority_table_heap[prio].as_mut().unwrap().push_back(next_thread);
            prev_thread.set_stat(STAT_RUNNING | (prev_thread.stat() & !STAT_MASK));
            self.current_thread = Some(prev_thread);
            proof {
                assert forall|q: int| 0 <= q < THREAD_PRIORITY_MAX implies (#[trigger] bit_set(
                    self.ready_group(),
                    q as usize,
                ) <==> self.ready(q).len() > 0) by {
                    lemma_set_bit(g, prio, q as usize);
                }
                lemma_set_bit(g, prio, 0);
                assert(old(self).ready_entry_wf(p, 0));
                assert forall|q: int| 0 <= q < prev_thread.current_priority implies #[trigger] self.ready(q).len() == 0 by {
                    assert(mid.ready(q) == old(self).ready(q));
                    assert(old(self).ready(q).len() == 0);
                }
                assert forall|q: int, i: int|
                    0 <= q < THREAD_PRIORITY_MAX && 0 <= i < self.ready(q).len()
                        implies #[trigger] self.ready_entry_wf(q, i) by {
                    if q == prio && i == self.ready(q).len() - 1 {
                    } else {
                        assert(mid.ready_entry_wf(q, i));
                    }
                }
                assert forall|q: int| 0 <= q < THREAD_PRIORITY_MAX implies #[trigger] self.ready(q) == if q == p {
                        old(self).ready(q).drop_first().push(next_thread)
                    } else {
                        old(self).ready(q)
                    } by {
                    assert(mid.ready(q) == old(self).ready(q) || q == p);
                }
                assert(Self::schedule_step(old(self), self, p, nest, ScheduleOutcome::Stay));
            }
            ScheduleOutcome::Stay
        }
    }

    /// `new` is `old` after `schedule`: the last thread was put back, then,
    /// if any thread is ready, one scheduling step was taken; `outcome` is
    /// its result.
    pub open spec fn scheduled(old: &Self, new: &Self, nest: usize, outcome: ScheduleOutcome) -> bool {
        exists|mid: Self| {
            &&& #[trigger] Self::last_put_back(old, &mid)
            &&& mid.none_ready() ==> outcome == ScheduleOutcome::Stay && *new == mid
            &&& !mid.none_ready() ==> exists|p: int| #[trigger] Self::schedule_step(&mid, new, p, nest, outcome)
        }
    }

    /// Puts the last thread back and decides which thread runs: the first
    /// ready thread of the highest priority, unless the running thread is
    /// of higher priority, or of the same priority with time slice left.
    /// When another thread is to run, it becomes the current thread, the
    /// running one becomes the last thread, and the caller switches from
    /// the last to the current thread (`nest` tells whether this happens in
    /// an interrupt).
    pub fn schedule(&mut self, nest: usize, cpu: &mut Box<dyn LibcpuTrait>) -> (outcome: ScheduleOutcome)
        requires
            old(self).wf(),
            old(self).current() is Some || old(self).ready_group() == 0,
        ensures
            old(self).current() is None ==> final(cpu).mask_ops() == old(cpu).mask_ops(),
            old(self).current() is Some ==> masked_once(old(cpu).mask_ops(), final(cpu).mask_ops()),
            final(self).wf(),
            old(self).current() is Some ==> final(self).current() is Some
                && final(self).none_ready_above(final(self).current().unwrap().current_priority as int),
            old(self).current() is None ==> outcome == ScheduleOutcome::Stay && *final(self) == *old(self),
            outcome != ScheduleOutcome::Stay ==> final(self).last() is Some,
            Self::scheduled(old(self), final(self), nest, outcome),
    {
        self.solve_last_thread();
        let ghost mid = *self;
        proof {
            assert(Self::last_put_back(old(self), &mid));
        }
        if self.ready_priority_group == 0 && self.current_thread.is_none() {
            proof {
                assert(old(self).last() is None);
                self.lemma_group_empty();
                assert(mid.none_ready());
            }
            return ScheduleOutcome::Stay;
        }
        let level = cpu.interrupt_disable();
        let outcome = self.schedule_ready(nest);
        cpu.interrupt_enable(level);
        proof {
            lemma_masked_once(old(cpu).mask_ops(), level);
        }
        outcome
    }

    /// The running thread, to be changed in place.
    pub fn current_thread_mut(&mut self) -> (t: Option<&mut Thread>)
        ensures
            old(self).current() is None ==> t is None && *final(self) == *old(self),
            old(self).current() is Some ==> t is Some && *t.unwrap() == old(self).current().unwrap()
                && final(self).current() == Some(*final(t.unwrap())),
            final(self).last() == old(self).last(),
            final(self).ready_group() == old(self).ready_group(),
            forall|p: int| #[trigger] final(self).ready(p) == old(self).ready(p),
            final(self).initialized() == old(self).initialized(),
            final(self).timer_threads() == old(self).timer_threads(),
    {
        self.current_thread.as_mut()
    }

    /// The thread last switched away from, to be changed in place.
    pub fn last_thread_mut(&mut self) -> (t: Option<&mut Thread>)
        ensures
            old(self).last() is None ==> t is None && *final(self) == *old(self),
            old(self).last() is Some ==> t is Some && *t.unwrap() == old(self).last().unwrap()
                && final(self).last() == Some(*final(t.unwrap())),
            final(self).current() == old(self).current(),
            final(self).ready_group() == old(self).ready_group(),
            forall|p: int| #[trigger] final(self).ready(p) == old(self).ready(p),
            final(self).initialized() == old(self).initialized(),
            final(self).timer_threads() == old(self).timer_threads(),
    {
        self.last_thread.as_mut()
    }

    /// Makes `thread` the thread last switched away from.
    pub fn set_last_thread(&mut self, thread: Thread)
        ensures
            final(self).last() == Some(thread),
            final(self).current() == old(self).current(),
            final(self).ready_group() == old(self).ready_group(),
            forall|p: int| #[trigger] final(self).ready(p) == old(self).ready(p),
            final(self).initialized() == old(self).initialized(),
            final(self).timer_threads() == old(self).timer_threads(),
    {
        self.last_thread = Some(thread);
    }

    /// The running thread.
    pub fn current_thread(&self) -> (t: Option<Thread>)
        ensures
            t == self.current(),
    {
        self.current_thread
    }

    /// Makes `thread` the running thread.
    pub fn set_current_thread(&mut self, thread: Thread)
        ensures
            final(self).current() == Some(thread),
            final(self).last() == old(self).last(),
            final(self).ready_group() == old(self).ready_group(),
            forall|p: int| #[trigger] final(self).ready(p) == old(self).ready(p),
            final(self).initialized() == old(self).initialized(),
            final(self).timer_threads() == old(self).timer_threads(),
    {
        self.current_thread = Some(thread);
    }

    /// Starts scheduling: the first thread of the highest ready priority is
    /// taken off its list, marked running (every flag cleared) and made the
    /// running thread; its saved stack pointer comes back, to switch to.
    #[verifier::spinoff_prover]
    pub fn start(&mut self) -> (sp: usize)
        requires
            old(self).wf(),
            old(self).ready_group() != 0,
        ensures
            final(self).wf(),
            exists|p: int| {
                &&& #[trigger] old(self).is_highest_ready(p)
                &&& final(self).current() == Some(Thread { stat: STAT_RUNNING, ..old(self).ready(p)[0] })
                &&& forall|q: int| 0 <= q < THREAD_PRIORITY_MAX ==> #[trigger] final(self).ready(q) == if q == p {
                    old(self).ready(q).drop_first()
                } else {
                    old(self).ready(q)
                }
            },
            sp == final(self).current().unwrap().sp,
            final(self).last() == old(self).last(),
            final(self).timer_threads() == old(self).timer_threads(),
            final(self).none_ready_above(final(self).current().unwrap().current_priority as int),
    {
        let mut highest_ready_priority: u8 = 0;
        let binding = self.get_highest_priority_thread(&mut highest_ready_priority);
        let ghost mid = *self;
        let ghost p = highest_ready_priority as int;
        let mut to_thread = binding.unwrap();
        proof {
            assert(old(self).ready_entry_wf(p, 0));
            assert(old(self).is_highest_ready(p));
        }
        to_thread.set_stat(STAT_RUNNING);
        self.set_current_thread(to_thread);
        proof {
            Self::lemma_wf_frame(&mid, self);
            assert forall|q: int| 0 <= q < THREAD_PRIORITY_MAX implies #[trigger] self.ready(q) == if q == p {
                    old(self).ready(q).drop_first()
                } else {
                    old(self).ready(q)
                } by {
                assert(mid.ready(q) == self.ready(q));
            }
            assert forall|q: int| 0 <= q < p implies #[trigger] self.ready(q).len() == 0 by {
                assert(mid.ready(q) == self.ready(q));
                assert(old(self).ready(q).len() == 0);
            }
        }
        to_thread.sp
    }

    /// Two schedulers that hold the same threads in the same places.
    pub open spec fn same_state(a: &Self, b: &Self) -> bool {
        &&& a.ready_group() == b.ready_group()
        &&& forall|p: int| 0 <= p < THREAD_PRIORITY_MAX ==> #[trigger] a.ready(p) == b.ready(p)
        &&& a.current() == b.current()
        &&& a.last() == b.last()
        &&& a.timer_threads() == b.timer_threads()
    }

    /// The ready threads of the levels below `n`, highest priority first.
    pub open spec fn ready_upto(&self, n: int) -> Seq<Thread>
        decreases n,
    {
        if n <= 0 {
            Seq::empty()
        } else {
            self.ready_upto(n - 1) + self.ready(n - 1)
        }
    }

    /// The number of priority levels that have a slot in the ready table
    /// (all of them once the scheduler is initialised, none before).
    pub closed spec fn table_len(&self) -> int {
        self.priority_table_heap@.len() as int
    }

    /// Priority level `p` has a ready list.
    pub closed spec fn has_list(&self, p: int) -> bool {
        0 <= p < self.priority_table_heap@.len() && self.priority_table_heap@[p] is Some
    }

    /// The threads in slot `p` of the ready table: empty where the slot has
    /// no list yet.
    pub closed spec fn level(&self, p: int) -> Seq<Thread> {
        if 0 <= p < self.priority_table_heap@.len() && self.priority_table_heap@[p] is Some {
            self.priority_table_heap@[p].unwrap()@
        } else {
            Seq::empty()
        }
    }

    /// The threads of the ready-table slots below `n`, slot by slot.
    pub open spec fn levels_upto(&self, n: int) -> Seq<Thread>
        decreases n,
    {
        if n <= 0 {
            Seq::empty()
        } else {
            self.levels_upto(n - 1) + self.level(n - 1)
        }
    }

    /// Once initialised, the slots are the ready lists.
    pub proof fn lemma_levels_are_ready(&self, n: int)
        requires
            self.initialized(),
            n <= THREAD_PRIORITY_MAX,
        ensures
            self.levels_upto(n) == self.ready_upto(n),
        decreases n,
    {
        if n > 0 {
            self.lemma_levels_are_ready(n - 1);
            assert(self.level(n - 1) == self.ready(n - 1));
        }
    }

    /// Every thread the scheduler knows of, except the sleeping ones: the
    /// running thread, the last thread, then the threads of the ready table
    /// slot by slot (before initialisation there are no slots).
    pub fn list_thread(&self) -> (v: Vec<Thread>)
        ensures
            v@ == opt_seq(self.current()) + opt_seq(self.last()) + self.levels_upto(self.table_len()),
            self.initialized() ==> v@ == opt_seq(self.current()) + opt_seq(self.last()) + self.ready_upto(
                THREAD_PRIORITY_MAX as int),
    {
        let mut v: Vec<Thread> = Vec::new();
        if let Some(thread) = self.current_thread {
            v.push(thread);
        }
        if let Some(thread) = self.last_thread {
            v.push(thread);
        }
        let ghost head = v@;
        assert(head == opt_seq(self.current()) + opt_seq(self.last()));
        let mut p: usize = 0;
        while p < self.priority_table_heap.len()
            invariant
                p <= self.priority_table_heap@.len(),
                v@ == head + self.levels_upto(p as int),
            decreases self.priority_table_heap@.len() - p,
        {
            let ghost before = v@;
            match &self.priority_table_heap[p] {
                Some(list) => {
                    let threads = list.to_vec();
                    let mut i: usize = 0;
                    while i < threads.len()
                        invariant
                            i <= threads@.len(),
                            v@ == before + threads@.take(i as int),
                        decreases threads@.len() - i,
                    {
                        v.push(threads[i]);
                        i += 1;
                        assert(v@ =~= before + threads@.take(i as int));
                    }
                    assert(threads@.take(i as int) =~= threads@);
                    assert(self.level(p as int) == threads@);
                },
                None => {
                    assert(self.level(p as int) =~= Seq::<Thread>::empty());
                    assert(v@ =~= before + self.level(p as int));
                },
            }
            p += 1;
            assert(v@ =~= head + self.levels_upto(p as int));
        }
        proof {
            if self.initialized() {
                self.lemma_levels_are_ready(THREAD_PRIORITY_MAX as int);
            }
        }
        v
    }

    /// A thread whose timer ran out: marked timed out and no longer sleeping.
    pub open spec fn timed_out(t: Thread) -> Thread {
        Thread { error: crate::error::Error::TimeOut, timer_run: false, ..t }
    }

    /// `new` is `old` after the sleeping thread `t` was woken: it went into its
    /// ready list, timed out, and the scheduler decided with result `outcome`.
    pub open spec fn woken(old: &Self, new: &Self, t: Thread, nest: usize, outcome: ScheduleOutcome) -> bool {
        exists|ins: Self| {
            &&& #[trigger] Self::inserted(old, &ins, Self::timed_out(t))
            &&& ins.current() == old.current()
            &&& Self::scheduled(&ins, new, nest, outcome)
        }
    }

    /// Step `k` of a run of wake-ups: `states[k + 1]` is `states[k]` after
    /// `threads[k]` was woken with result `outcomes[k]`.
    pub open spec fn wake_step(states: Seq<Self>, threads: Seq<Thread>, outcomes: Seq<ScheduleOutcome>, nest: usize, k: int) -> bool {
        Self::woken(&states[k], &states[k + 1], threads[k], nest, outcomes[k])
    }

    /// A sleeping thread whose timer ran out: it is marked timed out, no
    /// longer sleeping, made ready, and the scheduler decides.
    fn thread_timeout(&mut self, thread: Thread, nest: usize, cpu: &mut Box<dyn LibcpuTrait>) -> (outcome: ScheduleOutcome)
        requires
            old(self).wf(),
            old(self).current() is Some,
            thread.wf(),
        ensures
            masked_in_pairs(old(cpu).mask_ops(), final(cpu).mask_ops()),
            final(self).wf(),
            final(self).current() is Some,
            final(self).none_ready_above(final(self).current().unwrap().current_priority as int),
            Self::woken(old(self), final(self), thread, nest, outcome),
    {
        let mut t = thread;
        t.error = crate::error::Error::TimeOut;
        t.timer_run = false;
        self.insert_thread(t, cpu);
        let ghost ins = *self;
        let ghost m1 = cpu.mask_ops();
        let outcome = self.schedule(nest, cpu);
        proof {
            lemma_masked_once_in_pairs(old(cpu).mask_ops(), m1);
            lemma_masked_once_in_pairs(m1, cpu.mask_ops());
            lemma_masked_in_pairs_trans(old(cpu).mask_ops(), m1, cpu.mask_ops());
            assert(Self::inserted(old(self), &ins, Self::timed_out(thread)));
            assert(Self::scheduled(&ins, self, nest, outcome));
        }
        outcome
    }

    /// `new` is `old` after the sleeping threads whose wake-up tick is before
    /// `tick` were woken, earliest first, with the decisions `outcomes`: the
    /// woken threads are the first ones of the sleeping list, the next one
    /// (if any) is not due, and each wake-up is one step of `wake_step`.
    pub open spec fn timers_checked(old: &Self, new: &Self, tick: usize, nest: usize, outcomes: Seq<ScheduleOutcome>) -> bool {
        &&& outcomes.len() <= old.timer_threads().len()
        &&& forall|i: int| 0 <= i < outcomes.len() ==> tick > timeout_key(#[trigger] old.timer_threads()[i])
        &&& outcomes.len() < old.timer_threads().len() ==> !(tick > timeout_key(old.timer_threads()[len_int(outcomes.len())]))
        &&& outcomes.len() == 0 ==> Self::same_state(new, old)
        &&& exists|states: Seq<Self>| {
            &&& states.len() == outcomes.len() + 1
            &&& states[0].timer_threads() == old.timer_threads().skip(len_int(outcomes.len()))
            &&& states[0].current() == old.current()
            &&& states[0].last() == old.last()
            &&& forall|p: int| #[trigger] states[0].ready(p) == old.ready(p)
            &&& states.last() == *new
            &&& forall|k: int| 0 <= k < outcomes.len() ==> #[trigger] Self::wake_step(states, old.timer_threads(), outcomes, nest, k)
        }
    }

    /// `new` is `old` with one tick of the running thread's time slice used.
    pub open spec fn slice_used(old: &Self, new: &Self) -> bool {
        &&& old.current() is None ==> Self::same_state(new, old)
        &&& old.current() is Some ==> {
            &&& new.current() == Some(sliced(old.current().unwrap()))
            &&& new.last() == old.last()
            &&& new.ready_group() == old.ready_group()
            &&& forall|p: int| #[trigger] new.ready(p) == old.ready(p)
            &&& new.timer_threads() == old.timer_threads()
        }
    }

    /// The steps of one clock tick, from `old` over `put`, `used` and `mid`
    /// to `new`: the last thread is put back; the running thread uses a tick
    /// of its time slice; when the slice ran out the scheduler decides (the
    /// first outcome); then the sleeping threads due at `tick` are woken
    /// (the remaining outcomes).
    pub open spec fn tick_steps(
        old: &Self,
        put: &Self,
        used: &Self,
        mid: &Self,
        new: &Self,
        tick: usize,
        nest: usize,
        outcomes: Seq<ScheduleOutcome>,
    ) -> bool {
        &&& Self::last_put_back(old, put)
        &&& Self::slice_used(put, used)
        &&& if put.current() is Some && put.current().unwrap().remaining_tick == 1 {
            &&& outcomes.len() > 0
            &&& Self::scheduled(used, mid, nest, outcomes[0])
            &&& Self::timers_checked(mid, new, tick, nest, outcomes.skip(1))
        } else {
            &&& *mid == *used
            &&& Self::timers_checked(mid, new, tick, nest, outcomes)
        }
    }

    /// `new` is `old` after one clock tick that ends at `tick`, with the
    /// scheduling decisions `outcomes` (see `tick_steps`).
    pub open spec fn ticked(old: &Self, new: &Self, tick: usize, nest: usize, outcomes: Seq<ScheduleOutcome>) -> bool {
        exists|put: Self, used: Self, mid: Self| #[trigger] Self::tick_steps(old, &put, &used, &mid, new, tick, nest, outcomes)
    }

    /// Wakes the sleeping threads whose wake-up tick is before `tick`, in
    /// order of wake-up tick: each is marked timed out, made ready, and the
    /// scheduler decides; the decisions come back in that order.
    #[verifier::spinoff_prover]
    pub fn thread_timer_check(&mut self, tick: usize, nest: usize, cpu: &mut Box<dyn LibcpuTrait>) -> (outcomes: Vec<ScheduleOutcome>)
        requires
            old(self).wf(),
            old(self).current() is None ==> forall|i: int| 0 <= i < old(self).timer_threads().len()
                ==> !(tick > timeout_key(#[trigger] old(self).timer_threads()[i])),
        ensures
            masked_in_pairs(old(cpu).mask_ops(), final(cpu).mask_ops()),
            final(self).wf(),
            outcomes@.len() > 0 ==> final(self).current() is Some && final(self).none_ready_above(prio_int(final(self).current().unwrap().current_priority)),
            Self::timers_checked(old(self), final(self), tick, nest, outcomes@),
    {
        let popped = self.thread_timer_list.pop_with_cmp(&tick, expired);
        let ghost k = popped@.len();
        proof {
            assert forall|j: int| 0 <= j < k implies tick > timeout_key(#[trigger] old(self).timer_threads()[j]) by {
                assert(expired.ensures((&tick, &old(self).timer_threads()[j]), true));
            }
            if k < old(self).timer_threads().len() {
                assert(expired.ensures((&tick, &old(self).timer_threads()[len_int(k)]), false));
            }
            assert forall|i: int| 0 <= i < self.timer_threads().len() implies #[trigger] self.timer_threads()[i].wf() by {
                assert(self.timer_threads()[i] == old(self).timer_threads()[i + k]);
            }
            assert forall|a: int, b: int| 0 <= a <= b < self.timer_threads().len() implies timeout_key(self.timer_threads()[a]) <= timeout_key(self.timer_threads()[b]) by {
                assert(self.timer_threads()[a] == old(self).timer_threads()[a + k]);
                assert(self.timer_threads()[b] == old(self).timer_threads()[b + k]);
            }
            Self::lemma_wf_frame(old(self), self);
        }
        let mut outcomes: Vec<ScheduleOutcome> = Vec::new();
        let ghost mut states: Seq<Self> = seq![*self];
        proof {
            assert(states[0].timer_threads() == old(self).timer_threads().skip(len_int(popped@.len())));
        }
        proof {
            lemma_masked_in_pairs_refl(cpu.mask_ops());
        }
        if popped.len() == 0 {
            assert(self.thread_timer_list@ =~= old(self).thread_timer_list@);
            proof {
                assert(states.len() == outcomes@.len() + 1);
                assert(states.last() == *self);
                assert(forall|p: int| #[trigger] states[0].ready(p) == old(self).ready(p));
            }
            return outcomes;
        }
        let mut i: usize = 0;
        while i < popped.len()
            invariant
                states.len() == i + 1,
                states.last() == *self,
                states[0].timer_threads() == old(self).timer_threads().skip(len_int(popped@.len())),
                states[0].current() == old(self).current(),
                states[0].last() == old(self).last(),
                forall|p: int| #[trigger] states[0].ready(p) == old(self).ready(p),
                forall|k: int| 0 <= k < i ==> #[trigger] Self::wake_step(states, old(self).timer_threads(), outcomes@, nest, k),
                self.wf(),
                i <= popped@.len(),
                popped@.len() > 0,
                outcomes@.len() == i,
                popped@ == old(self).timer_threads().take(len_int(popped@.len())),
                popped@.len() <= old(self).timer_threads().len(),
                i == 0 ==> self.current() == old(self).current(),
                old(self).current() is None ==> forall|j: int| 0 <= j < old(self).timer_threads().len()
                    ==> !(tick > timeout_key(#[trigger] old(self).timer_threads()[j])),
                forall|j: int| 0 <= j < popped@.len() ==> #[trigger] old(self).timer_threads()[j].wf(),
                forall|j: int| 0 <= j < popped@.len() ==> tick > timeout_key(#[trigger] old(self).timer_threads()[j]),
                self.current() is Some || i == 0,
                i > 0 ==> self.none_ready_above(prio_int(self.current().unwrap().current_priority)),
                old(self).current() is Some ==> self.current() is Some,
                masked_in_pairs(old(cpu).mask_ops(), cpu.mask_ops()),
            decreases popped@.len() - i,
        {
            proof {
                assert(popped@[index_int(i)] == old(self).timer_threads()[index_int(i)]);
                if i == 0 && self.current() is None {
                    assert(!(tick > timeout_key(old(self).timer_threads()[0])));
                }
            }
            let ghost before = *self;
            let ghost o_before = outcomes@;
            let ghost m_before = cpu.mask_ops();
            let outcome = self.thread_timeout(popped[i], nest, cpu);
            outcomes.push(outcome);
            proof {
                lemma_masked_in_pairs_trans(old(cpu).mask_ops(), m_before, cpu.mask_ops());
                let states2 = states.push(*self);
                assert(Self::woken(&before, self, old(self).timer_threads()[index_int(i)], nest, outcome));
                assert forall|k: int| 0 <= k < i + 1 implies #[trigger] Self::wake_step(states2, old(self).timer_threads(), outcomes@, nest, k) by {
                    if k < i {
                        assert(Self::wake_step(states, old(self).timer_threads(), o_before, nest, k));
                        assert(states2[k] == states[k] && states2[k + 1] == states[k + 1]);
                        assert(outcomes@[k] == o_before[k]);
                    } else {
                        assert(states2[k] == before && states2[k + 1] == *self);
                    }
                }
                states = states2;
            }
            i += 1;
        }
        outcomes
    }

    /// The running thread finished: it goes back to state `Init` (flags
    /// cleared) and the scheduler decides.
    pub fn thread_exit(&mut self, nest: usize, cpu: &mut Box<dyn LibcpuTrait>) -> (outcome: ScheduleOutcome)
        requires
            old(self).wf(),
            old(self).current() is Some,
        ensures
            masked_once(old(cpu).mask_ops(), final(cpu).mask_ops()),
            final(self).wf(),
            final(self).current() is Some,
            final(self).none_ready_above(prio_int(final(self).current().unwrap().current_priority)),
            exists|exited: Self| {
                &&& exited.current() == Some(Thread { stat: STAT_INIT, ..old(self).current().unwrap() })
                &&& exited.last() == old(self).last()
                &&& exited.timer_threads() == old(self).timer_threads()
                &&& forall|p: int| #[trigger] exited.ready(p) == old(self).ready(p)
                &&& #[trigger] Self::scheduled(&exited, final(self), nest, outcome)
            },
    {
        let ghost before = *self;
        match self.current_thread_mut() {
            Some(thread) => {
                thread.stat = STAT_INIT;
            },
            None => {},
        }
        proof {
            Self::lemma_wf_frame(&before, self);
        }
        let ghost exited = *self;
        let outcome = self.schedule(nest, cpu);
        proof {
            assert(Self::scheduled(&exited, self, nest, outcome));
        }
        outcome
    }
}

impl Thread {
    /// Starts a thread: it is marked suspended and then resumed into its
    /// ready list; when a thread is already running the scheduler decides.
    pub fn startup(self, scheduler: &mut Scheduler, nest: usize, cpu: &mut Box<dyn LibcpuTrait>) -> (outcome: ScheduleOutcome)
        requires
            old(scheduler).wf(),
            self.wf(),
        ensures
            masked_in_pairs(old(cpu).mask_ops(), final(cpu).mask_ops()),
            final(scheduler).wf(),
            old(scheduler).current() is None ==> outcome == ScheduleOutcome::Stay
                && final(scheduler).current() is None
                && Scheduler::ready_after_insert(old(scheduler), final(scheduler), Thread { stat: STAT_SUSPEND_MASK, ..self }),
            old(scheduler).current() is Some ==> final(scheduler).current() is Some
                && final(scheduler).none_ready_above(prio_int(final(scheduler).current().unwrap().current_priority)),
            old(scheduler).current() is Some ==> exists|ins: Scheduler| {
                &&& #[trigger] Scheduler::inserted(old(scheduler), &ins, Thread { stat: STAT_SUSPEND_MASK, ..self })
                &&& ins.current() == old(scheduler).current()
                &&& Scheduler::scheduled(&ins, final(scheduler), nest, outcome)
            },
    {
        let mut thread = self;
        thread.stat = STAT_SUSPEND_MASK;
        assert(STAT_SUSPEND_MASK & STAT_SUSPEND_MASK == STAT_SUSPEND_MASK) by (bit_vector);
        thread.resume(scheduler, cpu);
        let ghost ins = *scheduler;
        let ghost m1 = cpu.mask_ops();
        if scheduler.current_thread().is_some() {
            let outcome = scheduler.schedule(nest, cpu);
            proof {
                lemma_masked_once_in_pairs(m1, cpu.mask_ops());
                lemma_masked_in_pairs_trans(old(cpu).mask_ops(), m1, cpu.mask_ops());
                assert(Scheduler::scheduled(&ins, scheduler, nest, outcome));
            }
            outcome
        } else {
            ScheduleOutcome::Stay
        }
    }

    /// A suspended thread goes into its ready list; others are left alone.
    fn resume(self, scheduler: &mut Scheduler, cpu: &mut Box<dyn LibcpuTrait>)
        requires
            old(scheduler).wf(),
            self.wf(),
        ensures
            masked_in_pairs(old(cpu).mask_ops(), final(cpu).mask_ops()),
            final(scheduler).wf(),
            final(scheduler).current() == old(scheduler).current(),
            (self.stat & STAT_SUSPEND_MASK == STAT_SUSPEND_MASK && old(scheduler).current() is None)
                ==> Scheduler::ready_after_insert(old(scheduler), final(scheduler), self),
            self.stat & STAT_SUSPEND_MASK == STAT_SUSPEND_MASK ==> Scheduler::inserted(old(scheduler), final(scheduler), self),
    {
        if (self.stat & STAT_SUSPEND_MASK) != STAT_SUSPEND_MASK {
            proof {
                lemma_masked_in_pairs_refl(cpu.mask_ops());
            }
            return;
        }
        scheduler.insert_thread(self, cpu);
        proof {
            lemma_masked_once_in_pairs(old(cpu).mask_ops(), cpu.mask_ops());
        }
    }
}

/// Round robin among equal priorities: a running thread whose time slice is
/// used up (its yield flag set) never keeps the processor against a ready
/// thread of its own priority.
pub proof fn lemma_used_slice_gives_way(prev: Thread, p: int)
    requires
        prev.current_priority == p,
        prev.stat & STAT_YIELD_MASK != 0,
    ensures
        !Scheduler::keeps_running(prev, p),
{
}

/// Round robin, on a whole decision: when the running thread has used up
/// its time slice and a different thread of its own priority is the first
/// ready one, the scheduler switches to that thread, and the thread that
/// ran becomes the last thread, with its yield flag cleared, while the new
/// one is taken off the front of the ready list.
pub proof fn lemma_used_slice_switches(old: Scheduler, new: Scheduler, p: int, nest: usize, outcome: ScheduleOutcome)
    requires
        Scheduler::schedule_step(&old, &new, p, nest, outcome),
        old.current() is Some,
        old.current().unwrap().current_priority == p,
        old.current().unwrap().stat & STAT_YIELD_MASK != 0,
        !old.ready(p)[0].same_as(&old.current().unwrap()),
    ensures
        outcome != ScheduleOutcome::Stay,
        new.current() == Some(Thread { stat: with_state(old.ready(p)[0].stat, STAT_RUNNING), ..old.ready(p)[0] }),
        new.last() == Some(Thread { stat: old.current().unwrap().stat & !STAT_YIELD_MASK, ..old.current().unwrap() }),
        new.ready(p) == old.ready(p).drop_first(),
{
    lemma_used_slice_gives_way(old.current().unwrap(), p);
    assert(0 <= p < THREAD_PRIORITY_MAX);
}

} // verus!
