use vstd::prelude::*;
use crate::error::Error;
use crate::irq::Interrupt;
use crate::list::List;
use crate::object::{Object, ObjectClassType, ObjectInformation, OBJECT_INFO_COUNT, padded_name};
use crate::scheduler::{Scheduler, ScheduleOutcome, prio_int, timeout_key};
use crate::thread::{Thread, STAT_READY, STAT_RUNNING, stat_state};
use crate::tick::Tick;
use crate::bits::bit_set;
use crate::timer::Timer;
use crate::bsp::{BoardTrait, BspTrait};
use crate::libcpu::{LibcpuTrait, MaskOp, masked_once, lemma_masked_once, masked_in_pairs};
use crate::device::{DeviceIo, DeviceOps};
use crate::mem::SmallMem;
use vstd::string::StringSliceAdditionalSpecFns;

verus! {

/// The kernel: scheduler, tick counter, timers, object container,
/// interrupt depth, board port, registered devices, idle hooks, heap and
/// console name.
pub struct System {
    scheduler: Option<Scheduler>,
    tick: Tick,
    timer_list: List<Timer>,
    object_container: Vec<ObjectInformation>,
    interrupt: Interrupt,
    libcpu: Option<Box<dyn LibcpuTrait>>,
    bsp: Option<Box<dyn BspTrait>>,
    board: Option<Box<dyn BoardTrait>>,
    device_list: Vec<RegisteredDevice>,
    idle_hook_list: Vec<usize>,
    heap: Option<SmallMem>,
    console_device: Option<String>,
    registered: Ghost<Seq<Seq<char>>>,
}

/// `hooks` without any occurrence of `hook`, the order kept.
pub open spec fn without_hook(hooks: Seq<usize>, hook: usize) -> Seq<usize> {
    hooks.filter(|x: usize| x != hook)
}

/// A registered device and the name it is kept under.
pub struct RegisteredDevice {
    pub name: String,
    pub device: Box<dyn DeviceOps>,
}

impl RegisteredDevice {
    /// The entry keeping `device` under `name`.
    fn new(name: String, device: Box<dyn DeviceOps>) -> (e: Self)
        ensures
            e.name == name,
    {
        RegisteredDevice { name, device }
    }
}

/// The device of entry `i` of `v`, to be changed in place.
fn entry_device(v: &mut Vec<RegisteredDevice>, i: usize) -> (d: &mut Box<dyn DeviceOps>)
    requires
        i < old(v).len(),
    ensures
        *d == old(v)@[i as int].device,
        final(v)@.len() == old(v)@.len(),
        final(v)@[i as int].name == old(v)@[i as int].name,
        final(v)@[i as int].device == *final(d),
        forall|j: int| 0 <= j < old(v)@.len() && j != i ==> #[trigger] final(v)@[j] == old(v)@[j],
{
    &mut v[i].device
}

/// Masks interrupts through the processor port `cpu`, if one is installed,
/// and gives the level to restore (0 without a port).
fn interrupts_off(cpu: &mut Option<Box<dyn LibcpuTrait>>) -> (level: isize)
    ensures
        (*old(cpu)) is None ==> *final(cpu) == *old(cpu),
        (*final(cpu)) is Some <==> (*old(cpu)) is Some,
        (*old(cpu)) is Some ==> mask_record(*final(cpu)) == mask_record(*old(cpu)).push(MaskOp::Disable(level)),
{
    match cpu {
        Some(c) => c.interrupt_disable(),
        None => 0,
    }
}

/// Restores the interrupt level `level` through the processor port `cpu`, if
/// one is installed.
fn interrupts_restore(cpu: &mut Option<Box<dyn LibcpuTrait>>, level: isize)
    ensures
        (*old(cpu)) is None ==> *final(cpu) == *old(cpu),
        (*final(cpu)) is Some <==> (*old(cpu)) is Some,
        (*old(cpu)) is Some ==> mask_record(*final(cpu)) == mask_record(*old(cpu)).push(MaskOp::Enable(level)),
{
    if let Some(c) = cpu {
        c.interrupt_enable(level);
    }
}

/// The interrupt-mask changes made through the processor port `cpu` (none
/// without a port).
pub open spec fn mask_record(cpu: Option<Box<dyn LibcpuTrait>>) -> Seq<MaskOp> {
    match cpu {
        Some(c) => c.mask_ops(),
        None => Seq::empty(),
    }
}


/// The names the registry entries `s` are kept under, in order.
pub open spec fn names_of(s: Seq<RegisteredDevice>) -> Seq<Seq<char>> {
    s.map_values(|e: RegisteredDevice| e.name@)
}

/// The names seen one by one.
pub proof fn lemma_names_of(s: Seq<RegisteredDevice>)
    ensures
        names_of(s).len() == s.len(),
        forall|k: int| 0 <= k < s.len() ==> #[trigger] names_of(s)[k] == s[k].name@,
{
}

impl System {
    /// The scheduler, once there is one.
    pub closed spec fn sched(&self) -> Option<Scheduler> {
        self.scheduler
    }

    /// The tick count.
    pub closed spec fn ticks(&self) -> usize {
        self.tick.count()
    }

    /// The interrupt depth.
    pub closed spec fn nesting(&self) -> usize {
        self.interrupt.depth()
    }

    /// The slots of the object container.
    pub closed spec fn objects(&self) -> Seq<ObjectInformation> {
        self.object_container@
    }

    /// The idle hooks, in the order they were set.
    pub closed spec fn idle_hooks(&self) -> Seq<usize> {
        self.idle_hook_list@
    }

    /// The name of the console device.
    pub closed spec fn console(&self) -> Option<Seq<char>> {
        match self.console_device {
            Some(s) => Some(s@),
            None => None,
        }
    }

    /// Whether a processor port was installed.
    pub closed spec fn has_libcpu(&self) -> bool {
        self.libcpu is Some
    }

    /// The interrupt-mask changes made through the processor port.
    pub closed spec fn masks(&self) -> Seq<MaskOp> {
        mask_record(self.libcpu)
    }

    /// The installed processor port, if any.
    pub closed spec fn libcpu_item(&self) -> Option<Box<dyn LibcpuTrait>> {
        self.libcpu
    }

    /// Whether a board port was installed.
    pub closed spec fn has_bsp(&self) -> bool {
        self.bsp is Some
    }

    /// Whether a board was installed.
    pub closed spec fn has_board(&self) -> bool {
        self.board is Some
    }

    /// The installed board, if any.
    pub closed spec fn board_item(&self) -> Option<Box<dyn BoardTrait>> {
        self.board
    }

    /// The names the registered devices are kept under, in the order they
    /// were registered.
    pub closed spec fn device_names(&self) -> Seq<Seq<char>> {
        names_of(self.device_list@)
    }

    /// The registry: each registered device with the name it is kept
    /// under, in the order they were registered.
    pub closed spec fn registry(&self) -> Seq<RegisteredDevice> {
        self.device_list@
    }

    /// The names of the devices registered so far, one entry per
    /// registration, in order.
    pub closed spec fn registrations(&self) -> Seq<Seq<char>> {
        self.registered@
    }

    /// The console is named and a device of that name is registered.
    pub open spec fn has_console_device(&self) -> bool {
        self.console() is Some && !self.none_named(self.console().unwrap())
    }

    /// The heap, once there is one.
    pub closed spec fn heap_view(&self) -> Option<SmallMem> {
        self.heap
    }

    /// The kernel invariant: the scheduler exists and is well formed, and
    /// the object container has all its slots.
    pub open spec fn wf(&self) -> bool {
        &&& self.sched() is Some
        &&& self.sched().unwrap().wf()
        &&& self.objects().len() == OBJECT_INFO_COUNT
    }

    /// A kernel with no scheduler yet, tick count 0, empty object slots,
    /// depth 0, no idle hook and no console.
    pub fn new() -> (s: Self)
        ensures
            s.sched() is None,
            s.ticks() == 0,
            s.nesting() == 0,
            s.objects().len() == OBJECT_INFO_COUNT,
            forall|i: int| 0 <= i < OBJECT_INFO_COUNT ==> (#[trigger] s.objects()[i]).object_class_type
                == ObjectClassType::Null && s.objects()[i].object_list@.len() == 0,
            s.idle_hooks().len() == 0,
            s.console() is None,
            !s.has_libcpu(),
            !s.has_bsp(),
            !s.has_board(),
            s.device_names().len() == 0,
            s.registrations().len() == 0,
            s.heap_view() is None,
    {
        let mut container: Vec<ObjectInformation> = Vec::new();
        let mut i: usize = 0;
        while i < OBJECT_INFO_COUNT
            invariant
                i <= OBJECT_INFO_COUNT,
                container@.len() == i,
                forall|j: int| 0 <= j < i ==> (#[trigger] container@[j]).object_class_type
                    == ObjectClassType::Null && container@[j].object_list@.len() == 0,
            decreases OBJECT_INFO_COUNT - i,
        {
            container.push(ObjectInformation::new());
            i += 1;
        }
        System {
            scheduler: None,
            tick: Tick::new(),
            timer_list: List::new(),
            object_container: container,
            interrupt: Interrupt::init(),
            libcpu: None,
            bsp: None,
            board: None,
            device_list: Vec::new(),
            idle_hook_list: Vec::new(),
            heap: None,
            console_device: None,
            registered: Ghost(Seq::empty()),
        }
    }

    /// Gives the thread slot and the device slot of the object container
    /// their kind and object size, and empties them.
    pub fn object_container_init(&mut self, thread_size: u16)
        requires
            old(self).objects().len() == OBJECT_INFO_COUNT,
        ensures
            final(self).objects().len() == OBJECT_INFO_COUNT,
            final(self).objects()[0].object_class_type == ObjectClassType::Thread,
            final(self).objects()[0].object_list@.len() == 0,
            final(self).objects()[0].object_size == thread_size,
            final(self).objects()[8].object_class_type == ObjectClassType::Device,
            final(self).objects()[8].object_list@.len() == 0,
            final(self).objects()[8].object_size == thread_size,
            forall|i: int| 0 <= i < OBJECT_INFO_COUNT && i != 0 && i != 8 ==> #[trigger] final(self).objects()[i] == old(self).objects()[i],
            final(self).sched() == old(self).sched(),
            final(self).libcpu_item() == old(self).libcpu_item(),
    {
        self.object_container[0].init(ObjectClassType::Thread, thread_size);
        self.object_container[8].init(ObjectClassType::Device, thread_size);
    }

    /// Creates the scheduler with its empty ready lists.
    pub fn scheduler_init(&mut self)
        ensures
            final(self).sched() is Some,
            final(self).sched().unwrap().wf(),
            final(self).sched().unwrap().none_ready(),
            final(self).sched().unwrap().current() is None,
            final(self).sched().unwrap().last() is None,
            final(self).sched().unwrap().timer_threads().len() == 0,
            final(self).objects() == old(self).objects(),
            final(self).ticks() == old(self).ticks(),
            final(self).nesting() == old(self).nesting(),
            final(self).console() == old(self).console(),
            final(self).libcpu_item() == old(self).libcpu_item(),
    {
        let mut scheduler = Scheduler::new();
        scheduler.init();
        self.scheduler = Some(scheduler);
    }

    /// Sets up the kernel: the object container, the console name and the scheduler.
    pub fn init(&mut self, thread_size: u16)
        requires
            old(self).objects().len() == OBJECT_INFO_COUNT,
        ensures
            final(self).wf(),
            final(self).sched().unwrap().none_ready(),
            final(self).sched().unwrap().current() is None,
            final(self).console() == Some("uart1"@),
            final(self).objects()[0].object_class_type == ObjectClassType::Thread,
            final(self).objects()[0].object_list@.len() == 0,
            final(self).objects()[8].object_class_type == ObjectClassType::Device,
            final(self).libcpu_item() == old(self).libcpu_item(),
    {
        self.object_container_init(thread_size);
        self.set_console(String::from_str("uart1"));
        self.scheduler_init();
    }

    /// The scheduler.
    pub fn scheduler_mut(&mut self) -> (s: &mut Scheduler)
        requires
            old(self).sched() is Some,
        ensures
            *s == old(self).sched().unwrap(),
            final(self).sched() == Some(*final(s)),
            final(self).objects() == old(self).objects(),
            final(self).ticks() == old(self).ticks(),
            final(self).nesting() == old(self).nesting(),
            final(self).console() == old(self).console(),
            final(self).idle_hooks() == old(self).idle_hooks(),
    {
        self.scheduler.as_mut().unwrap()
    }

    /// The interrupt depth counter.
    pub fn interrupt_mut(&mut self) -> (i: &mut Interrupt)
        ensures
            i.depth() == old(self).nesting(),
            final(self).nesting() == final(i).depth(),
            final(self).sched() == old(self).sched(),
            final(self).objects() == old(self).objects(),
            final(self).ticks() == old(self).ticks(),
            final(self).libcpu_item() == old(self).libcpu_item(),
    {
        &mut self.interrupt
    }

    /// The tick counter.
    pub fn tick_mut(&mut self) -> (t: &mut Tick)
        ensures
            t.count() == old(self).ticks(),
            final(self).ticks() == final(t).count(),
            final(self).sched() == old(self).sched(),
            final(self).objects() == old(self).objects(),
            final(self).nesting() == old(self).nesting(),
    {
        &mut self.tick
    }

    /// The kernel's own timers.
    pub fn timer_list_mut(&mut self) -> (l: &mut List<Timer>)
        ensures
            l@ == old(self).timers(),
            final(self).timers() == final(l)@,
            final(self).sched() == old(self).sched(),
            final(self).objects() == old(self).objects(),
            final(self).ticks() == old(self).ticks(),
            final(self).nesting() == old(self).nesting(),
    {
        &mut self.timer_list
    }

    /// The kernel's own timers, in order.
    pub closed spec fn timers(&self) -> Seq<Timer> {
        self.timer_list@
    }

    /// Names the console device.
    pub fn set_console(&mut self, console: String)
        ensures
            final(self).console() == Some(console@),
            final(self).sched() == old(self).sched(),
            final(self).objects() == old(self).objects(),
            final(self).ticks() == old(self).ticks(),
            final(self).nesting() == old(self).nesting(),
            final(self).libcpu_item() == old(self).libcpu_item(),
    {
        self.console_device = Some(console);
    }

    /// The idle hooks.
    pub fn idle_hook_list_mut(&mut self) -> (l: &mut Vec<usize>)
        ensures
            l@ == old(self).idle_hooks(),
            final(self).idle_hooks() == final(l)@,
            final(self).sched() == old(self).sched(),
            final(self).objects() == old(self).objects(),
    {
        &mut self.idle_hook_list
    }

    /// Adds a hook for the idle thread to run.
    pub fn idle_sethook(&mut self, hook: usize)
        ensures
            final(self).idle_hooks() == old(self).idle_hooks().push(hook),
            final(self).sched() == old(self).sched(),
            final(self).objects() == old(self).objects(),
    {
        self.idle_hook_list.push(hook);
    }

    /// Removes every occurrence of a hook.
    pub fn idle_delhook(&mut self, hook: usize)
        ensures
            final(self).idle_hooks() == without_hook(old(self).idle_hooks(), hook),
            final(self).sched() == old(self).sched(),
            final(self).objects() == old(self).objects(),
    {
        let mut kept: Vec<usize> = Vec::new();
        let mut i: usize = 0;
        while i < self.idle_hook_list.len()
            invariant
                i <= self.idle_hook_list@.len(),
                self.idle_hook_list@ == old(self).idle_hook_list@,
                kept@ == without_hook(self.idle_hook_list@.take(i as int), hook),
            decreases self.idle_hook_list@.len() - i,
        {
            let h = self.idle_hook_list[i];
            proof {
                let s = self.idle_hook_list@;
                reveal(Seq::filter);
                assert(s.take(i as int + 1).drop_last() =~= s.take(i as int));
                assert(s.take(i as int + 1).last() == s[i as int]);
                assert(without_hook(s.take(i as int + 1), hook) == if s[i as int] != hook {
                    without_hook(s.take(i as int), hook).push(s[i as int])
                } else {
                    without_hook(s.take(i as int), hook)
                });
            }
            if h != hook {
                kept.push(h);
            }
            i += 1;
        }
        assert(self.idle_hook_list@.take(i as int) =~= self.idle_hook_list@);
        self.idle_hook_list = kept;
    }

    /// `i` is the first slot of the container of kind `kind`.
    pub open spec fn is_info_slot(objs: Seq<ObjectInformation>, kind: ObjectClassType, i: int) -> bool {
        &&& 0 <= i < objs.len()
        &&& objs[i].object_class_type == kind
        &&& forall|j: int| 0 <= j < i ==> (#[trigger] objs[j]).object_class_type != kind
    }

    /// No slot of the container is of kind `kind`.
    pub open spec fn no_info_slot(objs: Seq<ObjectInformation>, kind: ObjectClassType) -> bool {
        forall|j: int| 0 <= j < objs.len() ==> (#[trigger] objs[j]).object_class_type != kind
    }

    fn info_index(&self, kind: ObjectClassType) -> (r: Option<usize>)
        requires
            self.objects().len() == OBJECT_INFO_COUNT,
        ensures
            r is None ==> Self::no_info_slot(self.objects(), kind),
            r is Some ==> Self::is_info_slot(self.objects(), kind, r.unwrap() as int),
    {
        let mut index: usize = 0;
        while index < OBJECT_INFO_COUNT
            invariant
                index <= OBJECT_INFO_COUNT,
                self.objects().len() == OBJECT_INFO_COUNT,
                forall|j: int| 0 <= j < index ==> (#[trigger] self.objects()[j]).object_class_type != kind,
            decreases OBJECT_INFO_COUNT - index,
        {
            if self.object_container[index].object_class_type == kind {
                return Some(index);
            }
            index += 1;
        }
        None
    }

    /// Puts an object in front of the objects of the first slot of its
    /// kind; nothing happens when no slot is of that kind.
    pub fn install_object(&mut self, kind: ObjectClassType, object: Object)
        requires
            old(self).objects().len() == OBJECT_INFO_COUNT,
        ensures
            final(self).objects().len() == OBJECT_INFO_COUNT,
            Self::no_info_slot(old(self).objects(), kind) ==> final(self).objects() == old(self).objects(),
            forall|i: int| #[trigger] Self::is_info_slot(old(self).objects(), kind, i) ==> {
                &&& final(self).objects()[i].object_list@ == seq![object] + old(self).objects()[i].object_list@
                &&& final(self).objects()[i].object_class_type == old(self).objects()[i].object_class_type
                &&& final(self).objects()[i].object_size == old(self).objects()[i].object_size
                &&& forall|j: int| 0 <= j < OBJECT_INFO_COUNT && j != i ==> #[trigger] final(self).objects()[j] == old(self).objects()[j]
            },
            final(self).sched() == old(self).sched(),
            final(self).ticks() == old(self).ticks(),
            final(self).nesting() == old(self).nesting(),
            final(self).console() == old(self).console(),
            Self::masked_around(old(self), final(self)),
    {
        let level = interrupts_off(&mut self.libcpu);
        match self.info_index(kind) {
            Some(index) => {
                self.object_container[index].object_list.push_front(object);
            },
            None => {},
        }
        interrupts_restore(&mut self.libcpu, level);
        proof {
            lemma_masked_once(old(self).masks(), level);
        }
    }

    /// Initializes an object (kind and name) and installs it in the container.
    pub fn object_init(&mut self, object: &mut Object, kind: ObjectClassType, name: &str)
        requires
            old(self).objects().len() == OBJECT_INFO_COUNT,
        ensures
            final(object).kind == kind,
            final(object).flag == old(object).flag,
            final(object).name@ == crate::object::overwritten_name(old(object).name@, name.spec_bytes()),
            final(self).objects().len() == OBJECT_INFO_COUNT,
            Self::no_info_slot(old(self).objects(), kind) ==> final(self).objects() == old(self).objects(),
            forall|i: int| #[trigger] Self::is_info_slot(old(self).objects(), kind, i) ==> {
                &&& final(self).objects()[i].object_list@ == seq![*final(object)] + old(self).objects()[i].object_list@
                &&& forall|j: int| 0 <= j < OBJECT_INFO_COUNT && j != i ==> #[trigger] final(self).objects()[j] == old(self).objects()[j]
            },
            final(self).sched() == old(self).sched(),
    {
        object.init(kind, name);
        self.install_object(kind, *object);
    }

    /// Creates a thread (see `Thread::init`) and installs its object in the container.
    pub fn thread_init(
        &mut self,
        name: &str,
        entry: usize,
        parameter: usize,
        stack_start: usize,
        stack_size: u32,
        priority: u8,
        tick: u8,
    ) -> (t: Thread)
        requires
            old(self).objects().len() == OBJECT_INFO_COUNT,
            priority < crate::config::THREAD_PRIORITY_MAX,
            16 <= (stack_start as u32) + stack_size <= u32::MAX,
            old(self).has_libcpu(),
        ensures
            t.wf(),
            t.parent.kind == ObjectClassType::Thread,
            t.parent.name@ == padded_name(name.spec_bytes()),
            t.current_priority == priority,
            t.init_tick == tick,
            t.remaining_tick == tick,
            t.stat == crate::thread::STAT_INIT,
            t.entry == entry && t.parameter == parameter && t.stack_addr == stack_start && t.stack_size == stack_size,
            final(self).objects().len() == OBJECT_INFO_COUNT,
            forall|i: int| #[trigger] Self::is_info_slot(old(self).objects(), ObjectClassType::Thread, i) ==>
                final(self).objects()[i].object_list@ == seq![t.parent] + old(self).objects()[i].object_list@,
            final(self).sched() == old(self).sched(),
    {
        let cpu: &Box<dyn LibcpuTrait> = self.libcpu.as_ref().unwrap();
        let thread = Thread::init(name, entry, parameter, stack_start, stack_size, priority, tick, &**cpu);
        self.install_object(ObjectClassType::Thread, thread.parent);
        thread
    }

    /// The first slot of the container of kind `kind`.
    pub fn get_object_information(&mut self, kind: ObjectClassType) -> (r: Option<&mut ObjectInformation>)
        requires
            old(self).objects().len() == OBJECT_INFO_COUNT,
        ensures
            r is None ==> Self::no_info_slot(old(self).objects(), kind) && final(self).objects() == old(self).objects(),
            r is Some ==> exists|i: int| {
                &&& #[trigger] Self::is_info_slot(old(self).objects(), kind, i)
                &&& *r.unwrap() == old(self).objects()[i]
                &&& final(self).objects() == old(self).objects().update(i, *final(r.unwrap()))
            },
            final(self).sched() == old(self).sched(),
            final(self).ticks() == old(self).ticks(),
            final(self).nesting() == old(self).nesting(),
            Self::masked_around(old(self), final(self)),
    {
        let level = interrupts_off(&mut self.libcpu);
        let found = self.info_index(kind);
        interrupts_restore(&mut self.libcpu, level);
        proof {
            lemma_masked_once(old(self).masks(), level);
        }
        match found {
            Some(index) => {
                proof {
                    assert(Self::is_info_slot(old(self).objects(), kind, index as int));
                }
                Some(&mut self.object_container[index])
            },
            None => None,
        }
    }

    /// The objects of the first slot of kind `kind`, searched in list
    /// order for the first one named `name`.
    #[verifier::spinoff_prover]
    pub fn object_find(&mut self, name: &str, kind: ObjectClassType) -> (r: Option<&mut Object>)
        requires
            old(self).objects().len() == OBJECT_INFO_COUNT,
        ensures
            r is None ==> final(self).objects() == old(self).objects() && (Self::no_info_slot(old(self).objects(), kind)
                || exists|i: int| #[trigger] Self::is_info_slot(old(self).objects(), kind, i)
                    && forall|k: int| 0 <= k < old(self).objects()[i].object_list@.len()
                        ==> (#[trigger] old(self).objects()[i].object_list@[k]).name@ != padded_name(name.spec_bytes())),
            r is Some ==> exists|i: int, k: int| #![trigger Self::is_info_slot(old(self).objects(), kind, i), old(self).objects()[i].object_list@[k]] {
                let objs = old(self).objects()[i].object_list@;
                &&& Self::is_info_slot(old(self).objects(), kind, i)
                &&& 0 <= k < objs.len()
                &&& objs[k].name@ == padded_name(name.spec_bytes())
                &&& forall|m: int| 0 <= m < k ==> (#[trigger] objs[m]).name@ != padded_name(name.spec_bytes())
                &&& *r.unwrap() == objs[k]
                &&& final(self).objects()[i].object_list@ == objs.update(k, *final(r.unwrap()))
                &&& forall|j: int| 0 <= j < OBJECT_INFO_COUNT && j != i ==> #[trigger] final(self).objects()[j] == old(self).objects()[j]
            },
            final(self).objects().len() == OBJECT_INFO_COUNT,
            final(self).sched() == old(self).sched(),
    {
        match self.info_index(kind) {
            Some(index) => {
                let ghost objs = self.objects()[index as int].object_list@;
                proof {
                    assert(Self::is_info_slot(old(self).objects(), kind, index as int));
                }
                let n = self.object_container[index].object_list.len();
                let mut k: usize = 0;
                while k < n
                    invariant
                        k <= n,
                        n == objs.len(),
                        *self == *old(self),
                        Self::is_info_slot(old(self).objects(), kind, index as int),
                        objs == self.objects()[index as int].object_list@,
                        index < OBJECT_INFO_COUNT,
                        self.objects().len() == OBJECT_INFO_COUNT,
                        forall|m: int| 0 <= m < k ==> (#[trigger] objs[m]).name@ != padded_name(name.spec_bytes()),
                    decreases n - k,
                {
                    if self.object_container[index].object_list.get(k).compare_name(name) {
                        proof {
                            assert(Self::is_info_slot(old(self).objects(), kind, index as int));
                            assert(old(self).objects()[index as int].object_list@[k as int] == objs[k as int]);
                        }
                        let found = self.object_container[index].object_list.get_mut(k);
                        return Some(found);
                    }
                    k += 1;
                }
                None
            },
            None => None,
        }
    }

    /// Interrupts were masked once through the processor port, if one is
    /// installed, and the level given then was restored.
    pub open spec fn masked_around(old: &Self, new: &Self) -> bool {
        &&& new.has_libcpu() == old.has_libcpu()
        &&& old.has_libcpu() ==> masked_once(old.masks(), new.masks())
        &&& !old.has_libcpu() ==> new.masks() == old.masks()
    }

    /// Interrupts were masked through the processor port any number of
    /// times, each time restoring the level given then.
    pub open spec fn masks_paired(old: &Self, new: &Self) -> bool {
        &&& new.has_libcpu() == old.has_libcpu()
        &&& masked_in_pairs(old.masks(), new.masks())
    }

    /// Frame of a change to the scheduler only.
    pub open spec fn only_sched_changed(old: &Self, new: &Self) -> bool {
        &&& new.objects() == old.objects()
        &&& new.nesting() == old.nesting()
        &&& new.console() == old.console()
        &&& new.idle_hooks() == old.idle_hooks()
    }

    /// Wakes the sleeping threads whose wake-up tick is before `tick`.
    pub fn timer_check(&mut self, tick: usize) -> (outcomes: Vec<ScheduleOutcome>)
        requires
            old(self).wf(),
            old(self).has_libcpu(),
        ensures
            Self::masks_paired(old(self), final(self)),
            final(self).wf(),
            Self::only_sched_changed(old(self), final(self)),
            final(self).ticks() == old(self).ticks(),
            Scheduler::timers_checked(&old(self).sched().unwrap(), &final(self).sched().unwrap(), tick,
                old(self).nesting(), outcomes@),
    {
        let nest = self.interrupt.nest();
        let cpu: &mut Box<dyn LibcpuTrait> = self.libcpu.as_mut().unwrap();
        self.scheduler.as_mut().unwrap().thread_timer_check(tick, nest, cpu)
    }

    /// A system tick (see `Tick::increase`), on the kernel's counter,
    /// scheduler and processor port.
    pub fn tick_increase(&mut self) -> (outcomes: Vec<ScheduleOutcome>)
        requires
            old(self).wf(),
            old(self).sched().unwrap().current() matches Some(t) ==> t.remaining_tick > 0,
            old(self).has_libcpu(),
        ensures
            final(self).wf(),
            Self::only_sched_changed(old(self), final(self)),
            final(self).ticks() == old(self).ticks().wrapping_add(1),
            old(self).sched().unwrap().current() is None ==> outcomes@.len() == 0
                && Scheduler::same_state(&final(self).sched().unwrap(), &old(self).sched().unwrap()),
            outcomes@.len() > 0 ==> final(self).sched().unwrap().current() is Some
                && final(self).sched().unwrap().none_ready_above(prio_int(final(self).sched().unwrap().current().unwrap().current_priority)),
            Scheduler::ticked(&old(self).sched().unwrap(), &final(self).sched().unwrap(), final(self).ticks(), old(self).nesting(), outcomes@),
            final(self).has_libcpu(),
            crate::tick::tick_masks(old(self).masks(), final(self).masks(), crate::tick::slice_runs_out(&old(self).sched().unwrap())),
    {
        let nest = self.interrupt.nest();
        let cpu: &mut Box<dyn LibcpuTrait> = self.libcpu.as_mut().unwrap();
        self.tick.increase(self.scheduler.as_mut().unwrap(), cpu, nest)
    }

    /// The running thread sleeps for `tick` ticks (see `Thread::sleep`, which
    /// masks interrupts through the processor port): it is suspended with its
    /// timer started and the scheduler decides; a thread that is neither
    /// ready nor running is left alone and `Error::Error` comes back.
    #[verifier::spinoff_prover]
    #[verifier::rlimit(40)]
    pub fn thread_sleep(&mut self, tick: usize) -> (r: Result<ScheduleOutcome, Error>)
        requires
            old(self).wf(),
            old(self).sched().unwrap().current() is Some,
            old(self).ticks() + tick <= usize::MAX,
            old(self).has_libcpu(),
        ensures
            final(self).wf(),
            Self::only_sched_changed(old(self), final(self)),
            final(self).ticks() == old(self).ticks(),
            ({
                let state = stat_state(old(self).sched().unwrap().current().unwrap().stat);
                state != STAT_READY && state != STAT_RUNNING
            }) ==> r == Err::<ScheduleOutcome, Error>(Error::Error)
                && Scheduler::same_state(&final(self).sched().unwrap(), &old(self).sched().unwrap()),
            ({
                let state = stat_state(old(self).sched().unwrap().current().unwrap().stat);
                state == STAT_READY || state == STAT_RUNNING
            }) ==> r is Ok,
            r is Ok ==> final(self).sched().unwrap().current() is Some
                && final(self).sched().unwrap().none_ready_above(prio_int(final(self).sched().unwrap().current().unwrap().current_priority)),
            r matches Ok(outcome) ==> exists|slept: Scheduler| {
                &&& slept.current() == Some(crate::thread::asleep(old(self).sched().unwrap().current().unwrap(), old(self).ticks(), tick))
                &&& slept.last() == old(self).sched().unwrap().last()
                &&& slept.timer_threads() == old(self).sched().unwrap().timer_threads()
                &&& forall|p: int| #[trigger] slept.ready(p) == old(self).sched().unwrap().ready(p)
                &&& #[trigger] Scheduler::scheduled(&slept, &final(self).sched().unwrap(), old(self).nesting(), outcome)
            },
            final(self).has_libcpu(),
            r is Err ==> crate::thread::sleep_masks(old(self).masks(), final(self).masks(), false),
            r is Ok ==> crate::thread::sleep_masks(old(self).masks(), final(self).masks().take(old(self).masks().len() + 6int), true)
                && masked_once(final(self).masks().take(old(self).masks().len() + 6int), final(self).masks()),
    {
        let now = self.tick.get();
        let nest = self.interrupt.nest();
        let ghost before = self.scheduler.unwrap();
        let cpu: &mut Box<dyn LibcpuTrait> = self.libcpu.as_mut().unwrap();
        let result = match self.scheduler.as_mut().unwrap().current_thread_mut() {
            Some(thread) => thread.sleep(now, tick, cpu),
            None => Err(Error::Error),
        };
        let scheduler = self.scheduler.as_mut().unwrap();
        match result {
            Ok(()) => {
                proof {
                    Scheduler::lemma_wf_frame(&before, scheduler);
                }
                let ghost slept = *scheduler;
                assert(slept.current() == Some(crate::thread::asleep(before.current().unwrap(), now, tick)));
                let ghost m1 = cpu.mask_ops();
                let outcome = scheduler.schedule(nest, cpu);
                proof {
                    assert(cpu.mask_ops().take(old(self).masks().len() + 6int) =~= m1);
                }
                proof {
                    assert(Scheduler::scheduled(&slept, scheduler, nest, outcome));
                    assert(now == old(self).ticks());
                    assert(nest == old(self).nesting());
                }
                Ok(outcome)
            },
            Err(e) => {
                proof {
                    Scheduler::lemma_wf_frame(&before, scheduler);
                }
                Err(e)
            },
        }
    }

    /// Starts the kernel: sets it up, registers the main and the idle
    /// thread in the object container, starts them and picks the thread to
    /// run first, whose saved stack pointer comes back to switch to.
    #[verifier::spinoff_prover]
    pub fn startup(&mut self, thread_size: u16, main_thread: Thread, idle_thread: Thread) -> (sp: usize)
        requires
            old(self).objects().len() == OBJECT_INFO_COUNT,
            main_thread.wf(),
            idle_thread.wf(),
            old(self).has_libcpu(),
        ensures
            final(self).wf(),
            final(self).has_libcpu(),
            final(self).sched().unwrap().current() is Some,
            sp == final(self).sched().unwrap().current().unwrap().sp,
            final(self).sched().unwrap().none_ready_above(prio_int(final(self).sched().unwrap().current().unwrap().current_priority)),
            final(self).objects()[0].object_list@ == seq![idle_thread.parent, main_thread.parent],
    {
        self.init(thread_size);
        proof {
            assert(Self::is_info_slot(self.objects(), ObjectClassType::Thread, 0));
        }
        self.install_object(ObjectClassType::Thread, main_thread.parent);
        proof {
            assert(Self::is_info_slot(self.objects(), ObjectClassType::Thread, 0));
        }
        self.install_object(ObjectClassType::Thread, idle_thread.parent);
        proof {
            assert(self.objects()[0].object_list@ =~= seq![idle_thread.parent, main_thread.parent]);
        }
        let nest = self.interrupt.nest();
        let cpu: &mut Box<dyn LibcpuTrait> = self.libcpu.as_mut().unwrap();
        let scheduler = self.scheduler.as_mut().unwrap();
        main_thread.startup(scheduler, nest, cpu);
        let ghost mid = *scheduler;
        idle_thread.startup(scheduler, nest, cpu);
        proof {
            let p = idle_thread.current_priority as int;
            assert(scheduler.ready(p).len() > 0);
            assert(bit_set(scheduler.ready_group(), p as usize));
            if scheduler.ready_group() == 0 {
                crate::bits::lemma_zero_no_bit(p as usize);
            }
        }
        scheduler.start()
    }

    /// The processor port.
    pub fn libcpu(&mut self) -> (c: &mut Box<dyn LibcpuTrait>)
        requires
            old(self).has_libcpu(),
        ensures
            *c == old(self).libcpu_item().unwrap(),
            final(self).libcpu_item() == Some(*final(c)),
            final(self).has_libcpu(),
            Self::only_sched_changed(old(self), final(self)),
            final(self).sched() == old(self).sched(),
            final(self).device_names() == old(self).device_names(),
    {
        self.libcpu.as_mut().unwrap()
    }

    /// Installs the processor port `item`.
    pub fn libcpu_trait_init<C: LibcpuTrait + 'static>(&mut self, item: C)
        ensures
            final(self).has_libcpu(),
            Self::only_sched_changed(old(self), final(self)),
            final(self).sched() == old(self).sched(),
            final(self).device_names() == old(self).device_names(),
    {
        self.libcpu = Some(Box::new(item));
    }

    /// The board port, if one was installed.
    pub fn bsp(&mut self) -> (r: Option<&mut Box<dyn BspTrait>>)
        ensures
            r is Some <==> old(self).has_bsp(),
            final(self).has_bsp() == old(self).has_bsp(),
            Self::only_sched_changed(old(self), final(self)),
            final(self).sched() == old(self).sched(),
            final(self).device_names() == old(self).device_names(),
    {
        self.bsp.as_mut()
    }

    /// Installs the board port `item`.
    pub fn bsp_trait_init<B: BspTrait + 'static>(&mut self, item: B)
        ensures
            final(self).has_bsp(),
            Self::only_sched_changed(old(self), final(self)),
            final(self).sched() == old(self).sched(),
            final(self).device_names() == old(self).device_names(),
    {
        self.bsp = Some(Box::new(item));
    }

    /// The board.
    pub fn board(&self) -> (b: &Box<dyn BoardTrait>)
        requires
            self.has_board(),
        ensures
            self.board_item() == Some(*b),
    {
        self.board.as_ref().unwrap()
    }

    /// Installs the board `item`.
    pub fn board_trait_init<B: BoardTrait + 'static>(&mut self, item: B)
        ensures
            final(self).has_board(),
            Self::only_sched_changed(old(self), final(self)),
            final(self).sched() == old(self).sched(),
            final(self).device_names() == old(self).device_names(),
    {
        self.board = Some(Box::new(item));
    }

    /// Installs the heap.
    pub fn set_heap(&mut self, heap: SmallMem)
        ensures
            final(self).heap_view() == Some(heap),
            Self::only_sched_changed(old(self), final(self)),
            final(self).sched() == old(self).sched(),
            final(self).device_names() == old(self).device_names(),
    {
        self.heap = Some(heap);
    }

    /// The heap.
    pub fn heap(&mut self) -> (h: &mut SmallMem)
        requires
            old(self).heap_view() is Some,
        ensures
            *h == old(self).heap_view().unwrap(),
            final(self).heap_view() == Some(*final(h)),
            Self::only_sched_changed(old(self), final(self)),
            final(self).sched() == old(self).sched(),
            final(self).device_names() == old(self).device_names(),
    {
        self.heap.as_mut().unwrap()
    }

    /// The registered devices, each with the name it is kept under.
    pub fn device_list_mut(&mut self) -> (l: &mut Vec<RegisteredDevice>)
        ensures
            names_of(l@) == old(self).device_names(),
            final(self).device_names() == names_of(final(l)@),
            Self::only_sched_changed(old(self), final(self)),
            final(self).sched() == old(self).sched(),
    {
        &mut self.device_list
    }

    /// The name the registered device at index `i` is kept under.
    pub open spec fn device_name(&self, i: int) -> Seq<char> {
        self.device_names()[i]
    }

    /// `i` is the index of the first registered device named `name`.
    pub open spec fn first_named(&self, name: Seq<char>, i: int) -> bool {
        &&& 0 <= i < self.device_names().len()
        &&& self.device_name(i) == name
        &&& forall|j: int| 0 <= j < i ==> #[trigger] self.device_name(j) != name
    }

    /// No registered device is named `name`.
    pub open spec fn none_named(&self, name: Seq<char>) -> bool {
        forall|j: int| 0 <= j < self.device_names().len() ==> #[trigger] self.device_name(j) != name
    }

    /// At most one index is the first of a name.
    pub proof fn lemma_first_named_unique(&self, name: Seq<char>, i: int, k: int)
        requires
            self.first_named(name, i),
            self.first_named(name, k),
        ensures
            i == k,
    {
        if k < i {
            assert(self.device_name(k) != name);
        } else if k > i {
            assert(self.device_name(i) != name);
        }
    }

    /// The index of the first registered device named `name`.
    fn device_index(&self, name: &String) -> (r: Option<usize>)
        ensures
            r matches Some(i) ==> self.first_named(name@, i as int),
            r is None ==> self.none_named(name@),
    {
        let mut i: usize = 0;
        while i < self.device_list.len()
            invariant
                i <= self.device_list@.len(),
                forall|j: int| 0 <= j < i ==> #[trigger] self.device_name(j) != name@,
            decreases self.device_list@.len() - i,
        {
            assert(self.device_name(i as int) == self.device_list@[i as int].name@);
            if self.device_list[i].name == *name {
                return Some(i);
            }
            i = i + 1;
        }
        None
    }

    /// Registers `item` under its name, in place of the device kept under
    /// that name if there is one, else after the others.
    pub fn device_register<D: DeviceOps + 'static>(&mut self, item: D)
        ensures
            Self::only_sched_changed(old(self), final(self)),
            final(self).sched() == old(self).sched(),
            old(self).none_named(item.name_spec()) ==> final(self).device_names()
                == old(self).device_names().push(item.name_spec()),
            !old(self).none_named(item.name_spec()) ==> final(self).device_names() == old(self).device_names(),
            final(self).registrations() == old(self).registrations().push(item.name_spec()),
            forall|j: int| 0 <= j < old(self).device_names().len() && !old(self).first_named(item.name_spec(), j)
                ==> #[trigger] final(self).registry()[j] == old(self).registry()[j],
    {
        let name: String = item.name().to_owned();
        let boxed: Box<dyn DeviceOps> = Box::new(item);
        let entry = RegisteredDevice::new(name, boxed);
        let ghost n = entry.name@;
        match self.device_index(&entry.name) {
            Some(i) => {
                self.device_list.set(i, entry);
                proof {
                    lemma_names_of(self.device_list@);
                    lemma_names_of(old(self).device_list@);
                    assert(self.device_names() =~= old(self).device_names());
                    assert forall|k: int| #[trigger] old(self).first_named(item.name_spec(), k) implies k == i as int by {
                        old(self).lemma_first_named_unique(item.name_spec(), i as int, k);
                    }
                }
            },
            None => {
                self.device_list.push(entry);
                proof {
                    lemma_names_of(self.device_list@);
                    lemma_names_of(old(self).device_list@);
                    assert(self.device_names() =~= old(self).device_names().push(n));
                }
            },
        }
        proof {
            self.registered@ = self.registered@.push(n);
        }
    }

    /// The console device: the device kept under the console's name, if the
    /// console is named and such a device is registered.
    pub fn console_device(&mut self) -> (r: Option<&mut Box<dyn DeviceOps>>)
        ensures
            r is Some <==> old(self).has_console_device(),
            forall|i: int| #[trigger] old(self).first_named(old(self).console().unwrap(), i) && old(self).console() is Some
                ==> r is Some && *r.unwrap() == old(self).registry()[i].device
                && final(self).registry()[i].device == *final(r.unwrap()),
            forall|j: int| 0 <= j < old(self).device_names().len() && (r is None || !old(self).first_named(old(self).console().unwrap(), j))
                ==> #[trigger] final(self).registry()[j] == old(self).registry()[j],
            final(self).device_names() == old(self).device_names(),
            final(self).registrations() == old(self).registrations(),
            r is None ==> final(self).registry() == old(self).registry(),
            Self::only_sched_changed(old(self), final(self)),
            final(self).sched() == old(self).sched(),
    {
        let found: Option<usize> = match &self.console_device {
            None => None,
            Some(console_name) => self.device_index(console_name),
        };
        match found {
            Some(i) => {
                proof {
                    assert forall|k: int| #[trigger] old(self).first_named(old(self).console().unwrap(), k) implies k == i as int by {
                        old(self).lemma_first_named_unique(old(self).console().unwrap(), i as int, k);
                    }
                }
                let d: &mut Box<dyn DeviceOps> = entry_device(&mut self.device_list, i);
                Some(d)
            },
            None => None,
        }
    }

    /// Hands `c` to the console device's write (position 0, size 1), if
    /// there is a console device.
    pub fn putc(&mut self, c: char)
        ensures
            final(self).objects() == old(self).objects(),
            final(self).nesting() == old(self).nesting(),
            final(self).console() == old(self).console(),
            final(self).idle_hooks() == old(self).idle_hooks(),
            final(self).sched() == old(self).sched(),
            final(self).device_names() == old(self).device_names(),
            final(self).registrations() == old(self).registrations(),
            !old(self).has_console_device() ==> final(self).registry() == old(self).registry(),
            final(self).registry().len() == old(self).registry().len(),
            forall|j: int| 0 <= j < old(self).registry().len() && !old(self).first_named(old(self).console().unwrap(), j)
                ==> #[trigger] final(self).registry()[j] == old(self).registry()[j],
            forall|i: int| #[trigger] old(self).first_named(old(self).console().unwrap(), i) && old(self).console() is Some
                ==> Self::console_wrote(old(self).registry()[i].device.io(), final(self).registry()[i].device.io(), seq![c], 1),
    {
        let buf: [char; 1] = [c];
        let ghost mut io0: Seq<DeviceIo> = Seq::empty();
        let ghost mut io1: Seq<DeviceIo> = Seq::empty();
        let wrote: bool = match self.console_device() {
            Some(console) => {
                proof {
                    io0 = console.io();
                }
                let rr = console.write(0, buf.as_slice(), 1);
                proof {
                    io1 = console.io();
                    assert(buf@ =~= seq![c]);
                    assert(io1 == io0.push(DeviceIo::Write(0, seq![c], 1, rr)));
                    assert(io1.drop_last() =~= io0);
                }
                true
            },
            None => false,
        };
        proof {
            assert forall|i: int| #[trigger] old(self).first_named(old(self).console().unwrap(), i) && old(self).console() is Some
                implies Self::console_wrote(old(self).registry()[i].device.io(), self.registry()[i].device.io(), seq![c], 1) by {
                assert(old(self).registry()[i].device.io() == io0);
                assert(self.registry()[i].device.io() == io1);
            }
        }
    }

    /// `new` is the device record `old` with one write more: of `chars`, at
    /// position 0, with size `size`.
    pub open spec fn console_wrote(old: Seq<DeviceIo>, new: Seq<DeviceIo>, chars: Seq<char>, size: usize) -> bool {
        &&& new.len() == old.len() + 1
        &&& new.drop_last() == old
        &&& new.last() matches DeviceIo::Write(p, b, n, _) && p == 0 && b == chars && n == size
    }

    /// `new` is the device record `old` with one read more, at position 0 of
    /// size 1 into a buffer holding a blank, and `b` is what the read left in
    /// the buffer (a blank if it left it empty).
    pub open spec fn console_read(old: Seq<DeviceIo>, new: Seq<DeviceIo>, b: u8) -> bool {
        &&& new.len() == old.len() + 1
        &&& new.drop_last() == old
        &&& new.last() matches DeviceIo::Read(p, n, before, after, _) && p == 0 && n == 1 && before == seq![32u8]
            && b == (if after.len() > 0 { after[0] } else { 32u8 })
    }

    /// Hands the characters of `s` to the console device's write (position
    /// 0, size the length of `s` in bytes), if there is a console device.
    pub fn puts(&mut self, s: &str)
        ensures
            final(self).objects() == old(self).objects(),
            final(self).nesting() == old(self).nesting(),
            final(self).console() == old(self).console(),
            final(self).idle_hooks() == old(self).idle_hooks(),
            final(self).sched() == old(self).sched(),
            final(self).device_names() == old(self).device_names(),
            final(self).registrations() == old(self).registrations(),
            !old(self).has_console_device() ==> final(self).registry() == old(self).registry(),
            final(self).registry().len() == old(self).registry().len(),
            forall|j: int| 0 <= j < old(self).registry().len() && !old(self).first_named(old(self).console().unwrap(), j)
                ==> #[trigger] final(self).registry()[j] == old(self).registry()[j],
            forall|i: int| #[trigger] old(self).first_named(old(self).console().unwrap(), i) && old(self).console() is Some
                ==> Self::console_wrote(old(self).registry()[i].device.io(), final(self).registry()[i].device.io(), s@,
                    s.spec_bytes().len() as usize),
    {
        let mut chars: Vec<char> = Vec::new();
        for c in iter: s.chars()
            invariant
                chars@ == iter.seq().take(iter.index() as int),
        {
            chars.push(c);
        }
        assert(chars@ =~= s@);
        let size: usize = s.len();
        let ghost mut io0: Seq<DeviceIo> = Seq::empty();
        let ghost mut io1: Seq<DeviceIo> = Seq::empty();
        let wrote: bool = match self.console_device() {
            Some(console) => {
                proof {
                    io0 = console.io();
                }
                let rr = console.write(0, chars.as_slice(), size);
                proof {
                    io1 = console.io();
                    assert(io1 == io0.push(DeviceIo::Write(0, s@, size, rr)));
                    assert(io1.drop_last() =~= io0);
                }
                true
            },
            None => false,
        };
        proof {
            assert forall|i: int| #[trigger] old(self).first_named(old(self).console().unwrap(), i) && old(self).console() is Some
                implies Self::console_wrote(old(self).registry()[i].device.io(), self.registry()[i].device.io(), s@,
                    s.spec_bytes().len() as usize) by {
                assert(old(self).registry()[i].device.io() == io0);
                assert(self.registry()[i].device.io() == io1);
            }
        }
    }

    /// Reads a byte from the console device (position 0, size 1, into a
    /// buffer holding a blank) and gives what it left in the buffer; a blank
    /// (32) where there is no console device.
    pub fn getc(&mut self) -> (b: u8)
        ensures
            !old(self).has_console_device() ==> b == 32 && final(self).registry() == old(self).registry(),
            forall|i: int| #[trigger] old(self).first_named(old(self).console().unwrap(), i) && old(self).console() is Some
                ==> Self::console_read(old(self).registry()[i].device.io(), final(self).registry()[i].device.io(), b),
            final(self).registry().len() == old(self).registry().len(),
            forall|j: int| 0 <= j < old(self).registry().len() && !old(self).first_named(old(self).console().unwrap(), j)
                ==> #[trigger] final(self).registry()[j] == old(self).registry()[j],
            Self::only_sched_changed(old(self), final(self)),
            final(self).sched() == old(self).sched(),
            final(self).device_names() == old(self).device_names(),
            final(self).registrations() == old(self).registrations(),
    {
        let mut buf: Vec<u8> = Vec::new();
        buf.push(32u8);
        assert(buf@ =~= seq![32u8]);
        let ghost mut io0: Seq<DeviceIo> = Seq::empty();
        let ghost mut io1: Seq<DeviceIo> = Seq::empty();
        if let Some(console) = self.console_device() {
            proof {
                io0 = console.io();
            }
            let rr = console.read(0, &mut buf, 1);
            proof {
                io1 = console.io();
                assert(io1.drop_last() =~= io0);
            }
        }
        let b: u8 = if buf.len() > 0 {
            buf[0]
        } else {
            32
        };
        proof {
            assert forall|i: int| #[trigger] old(self).first_named(old(self).console().unwrap(), i) && old(self).console() is Some
                implies Self::console_read(old(self).registry()[i].device.io(), self.registry()[i].device.io(), b) by {
                assert(old(self).registry()[i].device.io() == io0);
                assert(self.registry()[i].device.io() == io1);
            }
        }
        b
    }
}

/// The system tick interrupt: enter the interrupt, do the tick one level
/// deeper (see `System::tick_increase`), leave.
pub fn sys_tick(system: &mut System) -> (outcomes: Vec<ScheduleOutcome>)
    requires
        old(system).wf(),
        old(system).sched().unwrap().current() matches Some(t) ==> t.remaining_tick > 0,
        old(system).has_libcpu(),
    ensures
        final(system).wf(),
        final(system).nesting() == old(system).nesting(),
        final(system).ticks() == old(system).ticks().wrapping_add(1),
        final(system).objects() == old(system).objects(),
        Scheduler::ticked(&old(system).sched().unwrap(), &final(system).sched().unwrap(), final(system).ticks(),
            old(system).nesting().wrapping_add(1), outcomes@),
        final(system).has_libcpu(),
        crate::tick::tick_masks(old(system).masks(), final(system).masks(), crate::tick::slice_runs_out(&old(system).sched().unwrap())),
{
    system.interrupt_mut().enter();
    let outcomes = system.tick_increase();
    system.interrupt_mut().leave();
    outcomes
}

} // verus!
