use vstd::prelude::*;
use crate::device::{Device, DeviceClassType, DeviceOps, DeviceRegister};
use crate::system::System;

verus! {

/// Watchdog control commands.
#[derive(PartialEq, Eq, Structural, Copy, Clone, Debug)]
pub enum DeviceWatchDogCTRL {
    Start,
    Stop,
    GetTimeout,
    SetTimeout,
}

/// The code of a watchdog command: 0 to 3 in the order of the variants.
pub open spec fn watchdog_cmd_code(c: DeviceWatchDogCTRL) -> usize {
    match c {
        DeviceWatchDogCTRL::Start => 0,
        DeviceWatchDogCTRL::Stop => 1,
        DeviceWatchDogCTRL::GetTimeout => 2,
        DeviceWatchDogCTRL::SetTimeout => 3,
    }
}

/// The operations a watchdog provides; a command's argument, where it takes
/// one, is a timeout. A watchdog keeps, for proofs, the commands it was
/// given and how many times it was initialised; each operation adds its own.
pub trait WatchDogOps {
    /// The commands handed over so far, oldest first.
    open spec fn commands(&self) -> Seq<DeviceWatchDogCTRL> {
        Seq::empty()
    }

    /// The number of initialisations so far.
    open spec fn inits(&self) -> nat {
        0
    }

    fn init(&mut self)
        ensures
            final(self).inits() == old(self).inits() + 1,
            final(self).commands() == old(self).commands(),
    ;

    fn control(&mut self, cmd: DeviceWatchDogCTRL, args: Option<&mut u32>)
        ensures
            final(self).commands() == old(self).commands().push(cmd),
            final(self).inits() == old(self).inits(),
    ;
}

/// A watchdog device: its device record and the watchdog that drives it.
pub struct DeviceWatchDog<O: WatchDogOps> {
    pub parent: Device,
    pub ops: Option<O>,
}

impl<O: WatchDogOps> DeviceWatchDog<O> {
    /// The commands the watchdog was given (none without a watchdog).
    pub open spec fn commands(&self) -> Seq<DeviceWatchDogCTRL> {
        match self.ops {
            Some(o) => o.commands(),
            None => Seq::empty(),
        }
    }

    /// The initialisations of the watchdog (none without a watchdog).
    pub open spec fn inits(&self) -> nat {
        match self.ops {
            Some(o) => o.inits(),
            None => 0,
        }
    }

    /// A device without watchdog.
    pub fn new() -> (d: Self)
        ensures
            d.ops is None,
            d.commands() == Seq::<DeviceWatchDogCTRL>::empty(),
            d.inits() == 0,
            d.parent.name_view() == Seq::<char>::empty(),
            d.parent.kind() == DeviceClassType::Unknown,
    {
        DeviceWatchDog { parent: Device::new(), ops: None }
    }

    /// The watchdog.
    pub fn ops(&mut self) -> (o: &mut O)
        requires
            old(self).ops is Some,
        ensures
            *o == old(self).ops->0,
            final(self).ops == Some(*final(o)),
            final(self).parent == old(self).parent,
    {
        self.ops.as_mut().unwrap()
    }

}

impl<O: WatchDogOps> DeviceOps for DeviceWatchDog<O> {
    open spec fn io(&self) -> Seq<crate::device::DeviceIo> {
        self.parent.io_log()
    }

    /// Character reads are not served by this device: the buffer is left as
    /// it is; gives 0.
    fn read(&mut self, pos: isize, buffer: &mut Vec<u8>, size: usize) -> (r: isize)
        ensures
            r == 0,
            *final(buffer) == *old(buffer),
            final(self).ops == old(self).ops,
            final(self).parent.name_view() == old(self).parent.name_view(),
            final(self).parent.kind() == old(self).parent.kind(),
            final(self).parent.counters() == old(self).parent.counters(),
    {
        self.parent.record(Ghost(crate::device::DeviceIo::Read(pos, size, buffer@, buffer@, 0)));
        0
    }

    /// Character writes are not served by this device; gives 0.
    fn write(&mut self, pos: isize, buffer: &[char], size: usize) -> (r: isize)
        ensures
            r == 0,
            final(self).ops == old(self).ops,
            final(self).parent.name_view() == old(self).parent.name_view(),
            final(self).parent.kind() == old(self).parent.kind(),
            final(self).parent.counters() == old(self).parent.counters(),
    {
        self.parent.record(Ghost(crate::device::DeviceIo::Write(pos, buffer@, size, 0)));
        0
    }

    /// Asks the watchdog to initialise itself (a device without watchdog
    /// does nothing); gives 0.
    fn init(&mut self) -> (r: isize)
        ensures
            r == 0,
            final(self).parent == old(self).parent,
            final(self).ops is Some <==> old(self).ops is Some,
            final(self).commands() == old(self).commands(),
            old(self).ops is Some ==> final(self).inits() == old(self).inits() + 1,
            old(self).ops is None ==> final(self).inits() == old(self).inits(),
    {
        if self.ops.is_some() {
            self.ops().init();
        }
        0
    }

    /// Starts the watchdog (a device without watchdog does nothing); gives 0.
    fn open(&mut self, oflag: u16) -> (r: isize)
        ensures
            r == 0,
            final(self).parent == old(self).parent,
            final(self).ops is Some <==> old(self).ops is Some,
            final(self).commands() == (if old(self).ops is Some {
                old(self).commands().push(DeviceWatchDogCTRL::Start)
            } else {
                old(self).commands()
            }),
            final(self).inits() == old(self).inits(),
    {
        if self.ops.is_some() {
            self.ops().control(DeviceWatchDogCTRL::Start, None);
        }
        0
    }

    /// Stops the watchdog (a device without watchdog does nothing); gives 0.
    fn close(&mut self) -> (r: isize)
        ensures
            r == 0,
            final(self).parent == old(self).parent,
            final(self).ops is Some <==> old(self).ops is Some,
            final(self).commands() == (if old(self).ops is Some {
                old(self).commands().push(DeviceWatchDogCTRL::Stop)
            } else {
                old(self).commands()
            }),
            final(self).inits() == old(self).inits(),
    {
        if self.ops.is_some() {
            self.ops().control(DeviceWatchDogCTRL::Stop, None);
        }
        0
    }

    /// Hands command code `cmd` (see `watchdog_cmd_code`) to the watchdog;
    /// the timeout commands get a timeout cell holding the low 32 bits of
    /// `arg` (what the watchdog leaves there is not handed back). Other codes,
    /// and a device without watchdog, change nothing. Gives 0.
    fn control(&mut self, cmd: usize, arg: usize) -> (r: isize)
        ensures
            r == 0,
            final(self).parent == old(self).parent,
            final(self).ops is Some <==> old(self).ops is Some,
            final(self).inits() == old(self).inits(),
            final(self).commands() == (if old(self).ops is None || cmd > 3 {
                old(self).commands()
            } else if cmd == 0 {
                old(self).commands().push(DeviceWatchDogCTRL::Start)
            } else if cmd == 1 {
                old(self).commands().push(DeviceWatchDogCTRL::Stop)
            } else if cmd == 2 {
                old(self).commands().push(DeviceWatchDogCTRL::GetTimeout)
            } else {
                old(self).commands().push(DeviceWatchDogCTRL::SetTimeout)
            }),
    {
        if self.ops.is_none() {
            return 0;
        }
        let mut timeout: u32 = (arg & 0xffff_ffff) as u32;
        if cmd == 0 {
            self.ops().control(DeviceWatchDogCTRL::Start, None);
        } else if cmd == 1 {
            self.ops().control(DeviceWatchDogCTRL::Stop, None);
        } else if cmd == 3 {
            self.ops().control(DeviceWatchDogCTRL::SetTimeout, Some(&mut timeout));
        } else if cmd == 2 {
            self.ops().control(DeviceWatchDogCTRL::GetTimeout, Some(&mut timeout));
        }
        0
    }

    open spec fn name_spec(&self) -> Seq<char> {
        self.parent.name_view()
    }

    /// The device's name.
    fn name(&self) -> (s: &str)
        ensures
            s@ == self.parent.name_view(),
    {
        self.parent.name()
    }
}

impl<O: WatchDogOps> DeviceRegister<O> for DeviceWatchDog<O> {
    /// Gives the device its watchdog and its name, as a watchdog device.
    fn register(&mut self, name: &str, ops: O)
        ensures
            final(self).ops == Some(ops),
            final(self).parent.name_view() == name@,
            final(self).parent.kind() == DeviceClassType::WDT,
            final(self).parent.counters() == old(self).parent.counters(),
            final(self).commands() == ops.commands(),
            final(self).inits() == ops.inits(),
    {
        self.ops = Some(ops);
        self.parent.init(name, DeviceClassType::WDT);
    }
}

/// Independent watchdog registers.
pub struct IWDGTypeDef {
    /// Key register.
    pub kr: u32,
    /// Prescaler register.
    pub pr: u32,
    /// Reload register.
    pub rlr: u32,
    /// Status register.
    pub sr: u32,
}

/// The board's independent watchdog; timeouts count in units of 125 reload ticks.
pub struct StmWdg<'a> {
    pub wdt: &'a mut IWDGTypeDef,
}

impl<'a> StmWdg<'a> {
    /// Start writes the start key; SetTimeout unlocks the registers, sets the
    /// prescaler to 4 and the reload value to `125 * timeout`, and reloads;
    /// GetTimeout gives back the reload value divided by 125; Stop does nothing
    /// (this watchdog cannot be stopped), and neither does a timeout command
    /// without argument.
    pub fn control(&mut self, cmd: DeviceWatchDogCTRL, args: Option<&mut u32>)
        requires
            cmd == DeviceWatchDogCTRL::SetTimeout && args is Some ==> *args->0 * 125 <= u32::MAX,
        ensures
            ({
                let w = *old(self).wdt;
                let w2 = *final(self).wdt;
                match cmd {
                    DeviceWatchDogCTRL::Start => w2 == (IWDGTypeDef { kr: 0xCCCC, ..w }),
                    DeviceWatchDogCTRL::SetTimeout => match args {
                        Some(num) => w2 == (IWDGTypeDef { kr: 0xAAAA, pr: 4, rlr: (*num * 125) as u32, ..w }),
                        None => w2 == w,
                    },
                    _ => w2 == w,
                }
            }),
            cmd == DeviceWatchDogCTRL::GetTimeout ==> (args matches Some(num) ==> *final(num)
                == old(self).wdt.rlr / 125),
    {
        match cmd {
            DeviceWatchDogCTRL::Start => {
                self.wdt.kr = 0xCCCC;
            },
            DeviceWatchDogCTRL::SetTimeout => {
                if let Some(num) = args {
                    self.wdt.kr = 0x5555;
                    self.wdt.pr = 4;
                    self.wdt.rlr = *num * 125;
                    self.wdt.kr = 0xAAAA;
                }
            },
            DeviceWatchDogCTRL::GetTimeout => {
                if let Some(num) = args {
                    *num = self.wdt.rlr / 125;
                }
            },
            _ => {},
        }
    }
}

/// Creates a watchdog device named `name`, driven by `ops`, and registers it with
/// `system` under that name (in place of a device already kept under it).
pub fn register_watchdog_device<O: WatchDogOps + 'static>(system: &mut System, name: &str, ops: O)
    ensures
        System::only_sched_changed(old(system), final(system)),
        final(system).sched() == old(system).sched(),
        old(system).none_named(name@) ==> final(system).device_names() == old(system).device_names().push(name@),
        !old(system).none_named(name@) ==> final(system).device_names() == old(system).device_names(),
        final(system).registrations() == old(system).registrations().push(name@),
{
    let mut device: DeviceWatchDog<O> = DeviceWatchDog::new();
    device.register(name, ops);
    system.device_register(device);
}

} // verus!
