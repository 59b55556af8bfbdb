use kernel::finsh::{sh_command, sh_get_cmd, ShSyscall};
use kernel::error::Error;
use kernel::irq::{Interrupt, InterruptGuard};
use kernel::list::List;
use kernel::object::{Object, ObjectClassType, ObjectInformation};
use kernel::scheduler::{ScheduleOutcome, Scheduler};
use kernel::system::{sys_tick, System};
use kernel::thread::{Thread, STAT_INIT, STAT_READY, STAT_RUNNING, STAT_SUSPEND_MASK};
use kernel::tick::Tick;
use kernel::timer::Timer;
use kernel::libcpu::LibcpuTrait;

/// A processor port for tests: nothing to switch or mask; a new thread's
/// stack pointer lies 64 bytes below its stack top.
struct TestCpu;

impl LibcpuTrait for TestCpu {
    fn context_switch_to(&self, _sp: usize) {}
    fn context_switch(&self, _from_sp: usize, _to_sp: usize) {}
    fn context_switch_interrupt(&self, _from_sp: usize, _to_sp: usize, _from: &mut Thread, _to: &mut Thread) {}
    fn interrupt_disable(&mut self) -> isize {
        0
    }
    fn interrupt_enable(&mut self, _level: isize) {}
    fn stack_frame(&self, _entry: usize, _parameter: usize, stack_addr: usize, _exit: usize) -> usize {
        stack_addr - 64
    }
    fn stack_init(&self, entry: usize, parameter: usize, stack_addr: usize, exit: usize) -> usize {
        self.stack_frame(entry, parameter, stack_addr, exit)
    }
}

/// A processor port that keeps the mask level and writes down each change.
struct MaskCpu {
    level: isize,
    changes: std::rc::Rc<std::cell::RefCell<Vec<(bool, isize)>>>,
}

impl LibcpuTrait for MaskCpu {
    fn context_switch_to(&self, _sp: usize) {}
    fn context_switch(&self, _from_sp: usize, _to_sp: usize) {}
    fn context_switch_interrupt(&self, _from_sp: usize, _to_sp: usize, _from: &mut Thread, _to: &mut Thread) {}
    fn interrupt_disable(&mut self) -> isize {
        let before = self.level;
        self.level = 1;
        self.changes.borrow_mut().push((false, before));
        before
    }
    fn interrupt_enable(&mut self, level: isize) {
        self.level = level;
        self.changes.borrow_mut().push((true, level));
    }
    fn stack_frame(&self, _entry: usize, _parameter: usize, stack_addr: usize, _exit: usize) -> usize {
        stack_addr
    }
    fn stack_init(&self, entry: usize, parameter: usize, stack_addr: usize, exit: usize) -> usize {
        self.stack_frame(entry, parameter, stack_addr, exit)
    }
}

fn less(a: &u32, b: &u32) -> bool {
    *a < *b
}

fn equal(v: &u32, item: &u32) -> bool {
    *v == *item
}

#[test]
fn list_push_and_pop_at_both_ends() {
    let mut l: List<u32> = List::new();
    assert!(l.is_empty());
    l.push_back(2);
    l.push_front(1);
    l.push_back(3);
    assert_eq!(l.len(), 3);
    assert_eq!(l.to_vec(), vec![1, 2, 3]);
    assert_eq!(l.pop_front(), Some(1));
    assert_eq!(l.pop_back(), Some(3));
    assert_eq!(l.pop_back(), Some(2));
    assert_eq!(l.pop_back(), None);
    assert_eq!(l.pop_front(), None);
}

#[test]
fn list_pop_front_gives_back_what_push_front_put() {
    let mut l: List<u32> = List::new();
    l.push_back(7);
    l.push_back(8);
    l.push_front(42);
    assert_eq!(l.pop_front(), Some(42));
    assert_eq!(l.to_vec(), vec![7, 8]);
}

#[test]
fn list_insert_with_cmp_keeps_order_and_ties_in_arrival_order() {
    let mut l: List<u32> = List::new();
    for v in [5u32, 1, 9, 5, 3] {
        l.insert_with_cmp(v, less);
    }
    assert_eq!(l.to_vec(), vec![1, 3, 5, 5, 9]);
}

#[test]
fn list_pop_with_cmp_takes_matching_front_items() {
    let mut l: List<u32> = List::new();
    l.push_back(4);
    l.push_back(4);
    l.push_back(5);
    l.push_back(4);
    let popped = l.pop_with_cmp(&4u32, equal);
    assert_eq!(popped, vec![4, 4]);
    assert_eq!(l.to_vec(), vec![5, 4]);
    let none = l.pop_with_cmp(&9u32, equal);
    assert!(none.is_empty());
}

#[test]
fn list_iterates_in_order() {
    let mut l: List<u32> = List::new();
    l.push_back(1);
    l.push_back(2);
    let mut it = l.into_iter();
    assert_eq!(it.next(), Some(1));
    assert_eq!(it.next(), Some(2));
    assert_eq!(it.next(), None);
}

#[test]
fn timer_start_and_control() {
    let changes = std::rc::Rc::new(std::cell::RefCell::new(Vec::new()));
    let mut cpu: Box<dyn LibcpuTrait> = Box::new(MaskCpu { level: 0, changes: changes.clone() });
    let mut slot: Option<Timer> = None;
    let t = Timer::init(&mut slot, 11, 22, 5, 1);
    assert_eq!(t.timeout_tick(), 0);
    t.start(100, &mut cpu);
    assert_eq!(t.timeout_tick(), 105);
    t.control(20);
    t.start(100, &mut cpu);
    assert_eq!(t.timeout_tick(), 120);
    assert_eq!(slot.unwrap().init_tick, 20);
    assert_eq!(*changes.borrow(), vec![(false, 0), (true, 0), (false, 0), (true, 0)]);
}

#[test]
fn object_names_are_cut_and_compared_padded() {
    let mut o = Object::new();
    o.init(ObjectClassType::Thread, "main");
    assert!(o.compare_name("main"));
    assert!(!o.compare_name("mai"));
    assert!(!o.compare_name("idle"));
    let mut long = Object::new();
    long.init(ObjectClassType::Device, "averylongname");
    assert!(long.compare_name("averylon"));
    assert_eq!(long.kind, ObjectClassType::Device);
}

#[test]
fn object_information_init_sets_kind_and_size() {
    let mut info = ObjectInformation::new();
    assert_eq!(info.object_class_type, ObjectClassType::Null);
    info.init(ObjectClassType::Thread, 96);
    assert_eq!(info.object_class_type, ObjectClassType::Thread);
    assert_eq!(info.object_size, 96);
    assert!(info.object_list.is_empty());
}

#[test]
fn thread_init_sets_priority_mask_and_slice() {
    let t = Thread::init("worker", 1, 2, 0x2000, 1024, 5, 4, &TestCpu);
    assert_eq!(t.current_priority(), 5);
    assert_eq!(t.number_mask(), 1 << 5);
    assert_eq!(t.stat(), STAT_INIT);
    assert_eq!(t.init_tick, 4);
    assert!(!t.timer_run());
}

#[test]
fn thread_time_slice_reloads_when_used_up() {
    let mut t = Thread::init("slice", 0, 0, 0, 256, 3, 2, &TestCpu);
    assert_eq!(t.tick_decrease(), 1);
    assert_eq!(t.tick_decrease(), 0);
    assert_eq!(t.remaining_tick, 2);
}

#[test]
fn thread_sleep_needs_a_ready_or_running_thread() {
    let changes = std::rc::Rc::new(std::cell::RefCell::new(Vec::new()));
    let mut cpu: Box<dyn LibcpuTrait> = Box::new(MaskCpu { level: 0, changes: changes.clone() });
    let mut t = Thread::init("sleeper", 0, 0, 0, 256, 3, 2, &TestCpu);
    assert_eq!(t.sleep(10, 5, &mut cpu), Err(Error::Error));
    assert_eq!(*changes.borrow(), vec![(false, 0), (false, 1), (true, 1), (true, 0)]);
    changes.borrow_mut().clear();
    t.set_stat(STAT_READY);
    assert_eq!(t.sleep(10, 5, &mut cpu), Ok(()));
    assert_eq!(t.stat() & 0x07, STAT_SUSPEND_MASK);
    assert_eq!(t.timeout_tick(), 15);
    assert_eq!(
        *changes.borrow(),
        vec![(false, 0), (false, 1), (true, 1), (false, 1), (true, 1), (true, 0)]
    );
}

fn started(priority: u8) -> Thread {
    Thread::init("t", 0, 0, 0x1000, 512, priority, 3, &TestCpu)
}

#[test]
fn scheduler_starts_the_highest_priority_thread() {
    let mut s = Scheduler::new();
    let mut cpu: Box<dyn LibcpuTrait> = Box::new(TestCpu);
    s.init();
    assert_eq!(started(9).startup(&mut s, 0, &mut cpu), ScheduleOutcome::Stay);
    assert_eq!(started(4).startup(&mut s, 0, &mut cpu), ScheduleOutcome::Stay);
    assert_eq!(started(7).startup(&mut s, 0, &mut cpu), ScheduleOutcome::Stay);
    s.start();
    let cur = s.current_thread().unwrap();
    assert_eq!(cur.current_priority(), 4);
    assert_eq!(cur.stat(), STAT_RUNNING);
    assert_eq!(s.list_thread().len(), 3);
}

#[test]
fn a_thread_with_an_empty_time_slice_starts_too() {
    let mut s = Scheduler::new();
    let mut cpu: Box<dyn LibcpuTrait> = Box::new(TestCpu);
    s.init();
    let t = Thread::init("none", 0, 0, 0x1000, 512, 6, 0, &TestCpu);
    assert_eq!(t.startup(&mut s, 0, &mut cpu), ScheduleOutcome::Stay);
    s.start();
    let cur = s.current_thread().unwrap();
    assert_eq!(cur.current_priority(), 6);
    assert_eq!(cur.stat(), STAT_RUNNING);
}

#[test]
fn an_exiting_thread_gives_way() {
    let mut s = Scheduler::new();
    let mut cpu: Box<dyn LibcpuTrait> = Box::new(TestCpu);
    s.init();
    started(4).startup(&mut s, 0, &mut cpu);
    started(9).startup(&mut s, 0, &mut cpu);
    s.start();
    assert_eq!(s.current_thread().unwrap().current_priority(), 4);
    assert_eq!(s.thread_exit(0, &mut cpu), ScheduleOutcome::Switch);
    assert_eq!(s.current_thread().unwrap().current_priority(), 9);
    assert_eq!(s.current_thread().unwrap().stat(), STAT_RUNNING);
}

#[test]
fn shell_commands_are_named_and_described() {
    let c = sh_command("version", None, None, 3);
    assert_eq!(c.name, "version");
    assert_eq!(c.desc, "version cmd");
    assert_eq!(c.func, 3);
    let c = sh_command("free", None, Some("show memory usage"), 5);
    assert_eq!(c.name, "free");
    assert_eq!(c.desc, "show memory usage");
    let c = sh_command("list_thread", Some("ps"), Some("list threads"), 4);
    assert_eq!(c.name, "ps");
    assert_eq!(c.desc, "list threads");
}

#[test]
fn scheduler_switches_to_a_higher_priority_thread() {
    let mut s = Scheduler::new();
    let mut cpu: Box<dyn LibcpuTrait> = Box::new(TestCpu);
    s.init();
    started(10).startup(&mut s, 0, &mut cpu);
    s.start();
    let outcome = started(2).startup(&mut s, 0, &mut cpu);
    assert_eq!(outcome, ScheduleOutcome::Switch);
    assert_eq!(s.current_thread().unwrap().current_priority(), 2);
    assert_eq!(started(1).startup(&mut s, 1, &mut cpu), ScheduleOutcome::SwitchInInterrupt);
    assert_eq!(s.current_thread().unwrap().current_priority(), 1);
}

#[test]
fn scheduler_keeps_a_higher_priority_running_thread() {
    let mut s = Scheduler::new();
    let mut cpu: Box<dyn LibcpuTrait> = Box::new(TestCpu);
    s.init();
    started(2).startup(&mut s, 0, &mut cpu);
    s.start();
    assert_eq!(started(12).startup(&mut s, 0, &mut cpu), ScheduleOutcome::Stay);
    assert_eq!(s.current_thread().unwrap().current_priority(), 2);
}

#[test]
fn tick_counts_and_wraps() {
    let mut s = Scheduler::new();
    s.init();
    let mut cpu: Box<dyn LibcpuTrait> = Box::new(TestCpu);
    let mut t = Tick::new();
    assert!(t.increase(&mut s, &mut cpu, 0).is_empty());
    assert_eq!(t.get(), 1);
    t.set(usize::MAX);
    assert!(t.increase(&mut s, &mut cpu, 0).is_empty());
    assert_eq!(t.get(), 0);
    assert!(s.current_thread().is_none());
}

#[test]
fn a_tick_that_ends_a_slice_restores_the_level_again_after_scheduling() {
    let mut s = Scheduler::new();
    let mut cpu: Box<dyn LibcpuTrait> = Box::new(TestCpu);
    s.init();
    Thread::init("one", 0, 0, 0x1000, 512, 5, 1, &TestCpu).startup(&mut s, 0, &mut cpu);
    s.start();
    let changes = std::rc::Rc::new(std::cell::RefCell::new(Vec::new()));
    let mut masks: Box<dyn LibcpuTrait> = Box::new(MaskCpu { level: 0, changes: changes.clone() });
    let mut t = Tick::new();
    assert_eq!(t.increase(&mut s, &mut masks, 0), vec![ScheduleOutcome::Stay]);
    assert_eq!(*changes.borrow(), vec![(false, 0), (true, 0), (false, 0), (true, 0), (true, 0)]);
    changes.borrow_mut().clear();
    assert_eq!(t.increase(&mut s, &mut masks, 0), vec![ScheduleOutcome::Stay]);
    assert_eq!(*changes.borrow(), vec![(false, 0), (true, 0), (false, 0), (true, 0), (true, 0)]);
}

#[test]
fn interrupt_leave_undoes_enter() {
    let mut i = Interrupt::init();
    i.enter();
    i.enter();
    assert_eq!(i.nest(), 2);
    i.leave();
    i.leave();
    assert_eq!(i.nest(), 0);
}

#[test]
fn interrupt_guard_gives_the_value_and_the_mask() {
    let changes = std::rc::Rc::new(std::cell::RefCell::new(Vec::new()));
    let mut cpu: Box<dyn LibcpuTrait> = Box::new(MaskCpu { level: 7, changes: changes.clone() });
    let mut v: u32 = 3;
    {
        let mut g = InterruptGuard::new(&mut v, &mut cpu);
        *g.data() += 1;
        assert_eq!(g.saved_level(), 7);
        g.release();
    }
    assert_eq!(v, 4);
    assert_eq!(*changes.borrow(), vec![(false, 7), (true, 7)]);
}

#[test]
fn object_lookup_masks_and_restores() {
    let changes = std::rc::Rc::new(std::cell::RefCell::new(Vec::new()));
    let mut system = System::new();
    system.libcpu_trait_init(MaskCpu { level: 5, changes: changes.clone() });
    assert!(system.get_object_information(ObjectClassType::Null).is_some());
    assert_eq!(*changes.borrow(), vec![(false, 5), (true, 5)]);
}

#[test]
fn error_texts() {
    assert_eq!(Error::NoError.to_string(), "Error type : There is no error!");
    assert_eq!(Error::TimeOut.to_string(), "Error type : Timed out!");
    assert_eq!(Error::Fault.to_string(), "Error type : Bad address !");
    assert_eq!(Error::NoBufs.to_string(), "Error type : No buffer space is available!");
}

fn booted() -> (System, usize) {
    let mut sys = System::new();
    sys.libcpu_trait_init(TestCpu);
    let main_thread = Thread::init("main", 1, 0, 0x1000, 1024, 20, 3, &TestCpu);
    let idle_thread = Thread::init("idle", 2, 0, 0x2000, 1024, 31, 3, &TestCpu);
    let sp = sys.startup(96, main_thread, idle_thread);
    (sys, sp)
}

#[test]
fn system_startup_runs_main_before_idle() {
    let (mut sys, sp) = booted();
    assert_eq!(sp, 0x1000 + 1024 - 16 - 64);
    let cur = sys.scheduler_mut().current_thread().unwrap();
    assert!(cur.parent.compare_name("main"));
    assert_eq!(cur.current_priority(), 20);
    let info = sys.get_object_information(ObjectClassType::Thread).unwrap();
    assert_eq!(info.object_size, 96);
}

#[test]
fn system_tick_counts_and_slices_yield() {
    let (mut sys, _) = booted();
    let o1 = sys.tick_increase();
    assert!(o1.is_empty());
    assert_eq!(sys.tick_mut().get(), 1);
    sys.tick_increase();
    let o3 = sys.tick_increase();
    assert_eq!(o3, vec![ScheduleOutcome::Stay]);
    assert!(sys.scheduler_mut().current_thread().unwrap().parent.compare_name("main"));
}

#[test]
fn system_sleep_switches_to_idle_and_wakes_on_time() {
    let (mut sys, _) = booted();
    let r = sys.thread_sleep(2);
    assert_eq!(r, Ok(ScheduleOutcome::Switch));
    assert!(sys.scheduler_mut().current_thread().unwrap().parent.compare_name("idle"));
    sys.tick_increase();
    sys.tick_increase();
    assert!(sys.scheduler_mut().current_thread().unwrap().parent.compare_name("idle"));
    let outcomes = sys.tick_increase();
    assert!(outcomes.contains(&ScheduleOutcome::Switch));
    assert!(sys.scheduler_mut().current_thread().unwrap().parent.compare_name("main"));
}

#[test]
fn sys_tick_leaves_the_interrupt_depth_as_it_was() {
    let (mut sys, _) = booted();
    sys_tick(&mut sys);
    assert_eq!(sys.interrupt_mut().nest(), 0);
    assert_eq!(sys.tick_mut().get(), 1);
}

#[test]
fn idle_hooks_are_added_and_all_occurrences_removed() {
    let mut sys = System::new();
    sys.idle_sethook(1);
    sys.idle_sethook(2);
    sys.idle_sethook(1);
    sys.idle_delhook(1);
    sys.idle_delhook(5);
    sys.idle_sethook(3);
    sys.idle_delhook(2);
    sys.idle_delhook(3);
    assert_eq!(*sys.idle_hook_list_mut(), vec![]);
    sys.idle_sethook(4);
    sys.idle_sethook(6);
    sys.idle_sethook(4);
    assert_eq!(*sys.idle_hook_list_mut(), vec![4, 6, 4]);
    sys.idle_delhook(4);
    assert_eq!(*sys.idle_hook_list_mut(), vec![6]);
}

#[test]
fn object_find_looks_up_by_name() {
    let (mut sys, _) = booted();
    let found = sys.object_find("idle", ObjectClassType::Thread);
    assert!(found.is_some());
    assert!(sys.object_find("nobody", ObjectClassType::Thread).is_none());
    assert!(sys.object_find("idle", ObjectClassType::Timer).is_none());
}

#[test]
fn object_and_thread_texts() {
    assert_eq!(ObjectClassType::Thread.to_string(), "Type:thread");
    assert_eq!(ObjectClassType::Null.to_string(), "Type:Null");
    assert_eq!(ObjectClassType::Device.to_string(), "Type:Unknown");
    let mut o = Object::new();
    o.init(ObjectClassType::Timer, "tm");
    assert_eq!(o.to_string(), "[tm\0\0\0\0\0\0 Type:timer]");
    let t = Thread::init("main", 0, 0, 0, 64, 1, 1, &TestCpu);
    assert_eq!(t.to_string(), "[main\0\0\0\0 Type:thread]");
}

#[test]
fn shell_commands_are_found_by_name() {
    let table = vec![
        ShSyscall { name: String::from("cmd_test"), desc: String::from("cmd_test function"), func: 1 },
        ShSyscall { name: String::from("cmd_test2"), desc: String::new(), func: 2 },
        ShSyscall { name: String::from("cmd_test"), desc: String::from("again"), func: 3 },
    ];
    assert_eq!(sh_get_cmd(&table, "cmd_test"), Some(0));
    assert_eq!(sh_get_cmd(&table, "cmd_test2"), Some(1));
    assert_eq!(sh_get_cmd(&table, "list_thread"), None);
}

#[test]
fn system_sleep_masks_around_the_state_change_and_the_timer() {
    let changes = std::rc::Rc::new(std::cell::RefCell::new(Vec::new()));
    let mut sys = System::new();
    sys.libcpu_trait_init(MaskCpu { level: 0, changes: changes.clone() });
    let main_thread = Thread::init("main", 1, 0, 0x1000, 1024, 20, 3, &TestCpu);
    let idle_thread = Thread::init("idle", 2, 0, 0x2000, 1024, 31, 3, &TestCpu);
    sys.startup(96, main_thread, idle_thread);
    changes.borrow_mut().clear();
    assert_eq!(sys.thread_sleep(2), Ok(ScheduleOutcome::Switch));
    assert_eq!(
        *changes.borrow(),
        vec![
            (false, 0), (false, 1), (true, 1), (false, 1), (true, 1), (true, 0),
            (false, 0), (true, 0),
        ]
    );
}

#[test]
fn sleeping_threads_wake_in_order_of_their_ticks() {
    let (mut sys, _) = booted();
    let a = Thread::init("a", 3, 0, 0x3000, 1024, 10, 3, &TestCpu);
    let nest = sys.interrupt_mut().nest();
    let mut cpu: Box<dyn LibcpuTrait> = Box::new(TestCpu);
    assert_eq!(a.startup(sys.scheduler_mut(), nest, &mut cpu), ScheduleOutcome::Switch);
    assert!(sys.scheduler_mut().current_thread().unwrap().parent.compare_name("a"));
    assert_eq!(sys.thread_sleep(5), Ok(ScheduleOutcome::Switch));
    assert!(sys.scheduler_mut().current_thread().unwrap().parent.compare_name("main"));
    assert_eq!(sys.thread_sleep(3), Ok(ScheduleOutcome::Switch));
    assert!(sys.scheduler_mut().current_thread().unwrap().parent.compare_name("idle"));
    sys.tick_increase();
    let order: Vec<bool> = sys
        .scheduler_mut()
        .thread_timer_list_mut()
        .to_vec()
        .iter()
        .map(|t| t.parent.compare_name("main"))
        .collect();
    assert_eq!(order, vec![true, false]);
    sys.tick_increase();
    sys.tick_increase();
    assert!(sys.scheduler_mut().current_thread().unwrap().parent.compare_name("idle"));
    sys.tick_increase();
    assert!(sys.scheduler_mut().current_thread().unwrap().parent.compare_name("main"));
    sys.tick_increase();
    sys.tick_increase();
    assert!(sys.scheduler_mut().current_thread().unwrap().parent.compare_name("a"));
}

#[test]
fn thread_init_saves_the_ports_stack_pointer() {
    let t = Thread::init("worker", 1, 2, 0x2000, 1024, 5, 4, &TestCpu);
    assert_eq!(t.sp, 0x2000 + 1024 - 16 - 64);
}

#[test]
fn thread_init_accepts_a_zero_slice() {
    let t = Thread::init("zero", 1, 2, 0x2000, 1024, 5, 0, &TestCpu);
    assert_eq!(t.init_tick, 0);
    assert_eq!(t.remaining_tick, 0);
}

#[test]
fn schedule_with_nothing_running_and_nothing_ready_stays() {
    let mut s = Scheduler::new();
    let mut cpu: Box<dyn LibcpuTrait> = Box::new(TestCpu);
    s.init();
    assert_eq!(s.schedule(0, &mut cpu), ScheduleOutcome::Stay);
    assert!(s.current_thread().is_none());
}

#[test]
fn list_thread_before_init_lists_nothing() {
    let s = Scheduler::new();
    assert_eq!(s.list_thread().len(), 0);
}
