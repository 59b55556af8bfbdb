use vstd::prelude::*;
use crate::device::{Device, DeviceClassType, DeviceOps, DeviceRegister};
use crate::system::System;

verus! {

/// The level of a pin.
#[allow(non_camel_case_types)]
#[derive(PartialEq, Eq, Structural, Copy, Clone, Debug)]
pub enum PinState {
    LOW,
    HIGH,
}

impl From<PinState> for bool {
    fn from(value: PinState) -> (b: bool) {
        match value {
            PinState::LOW => false,
            PinState::HIGH => true,
        }
    }
}

impl vstd::std_specs::convert::FromSpecImpl<PinState> for bool {
    open spec fn obeys_from_spec() -> bool {
        true
    }

    open spec fn from_spec(v: PinState) -> bool {
        v == PinState::HIGH
    }
}

impl From<bool> for PinState {
    fn from(value: bool) -> (s: PinState) {
        match value {
            false => PinState::LOW,
            true => PinState::HIGH,
        }
    }
}

impl vstd::std_specs::convert::FromSpecImpl<bool> for PinState {
    open spec fn obeys_from_spec() -> bool {
        true
    }

    open spec fn from_spec(v: bool) -> PinState {
        if v {
            PinState::HIGH
        } else {
            PinState::LOW
        }
    }
}

/// How a pin is configured.
#[allow(non_camel_case_types)]
#[derive(PartialEq, Eq, Structural, Copy, Clone, Debug)]
pub enum PinMode {
    OUTPUT,
    INPUT,
    InputPullup,
    InputPulldown,
    OutputOd,
}

/// The code of a pin mode: 0 to 4 in the order of the variants.
pub open spec fn pin_mode_code(m: PinMode) -> usize {
    match m {
        PinMode::OUTPUT => 0,
        PinMode::INPUT => 1,
        PinMode::InputPullup => 2,
        PinMode::InputPulldown => 3,
        PinMode::OutputOd => 4,
    }
}

impl From<PinMode> for usize {
    fn from(value: PinMode) -> (c: usize) {
        match value {
            PinMode::OUTPUT => 0,
            PinMode::INPUT => 1,
            PinMode::InputPullup => 2,
            PinMode::InputPulldown => 3,
            PinMode::OutputOd => 4,
        }
    }
}

impl vstd::std_specs::convert::FromSpecImpl<PinMode> for usize {
    open spec fn obeys_from_spec() -> bool {
        true
    }

    open spec fn from_spec(v: PinMode) -> usize {
        pin_mode_code(v)
    }
}

impl PinMode {
    /// The mode with code `value` (0 to 4).
    pub fn from_code(value: usize) -> (m: PinMode)
        requires
            value <= 4,
        ensures
            pin_mode_code(m) == value,
    {
        match value {
            0 => PinMode::OUTPUT,
            1 => PinMode::INPUT,
            2 => PinMode::InputPullup,
            3 => PinMode::InputPulldown,
            _ => PinMode::OutputOd,
        }
    }
}

/// The operations a pin controller provides. A controller keeps, for
/// proofs, the requests it has served: each operation adds its own.
pub trait PinOps {
    /// The requests served so far, oldest first.
    spec fn requests(&self) -> Seq<PinRequest>;

    fn pin_mode(&mut self, pin: usize, mode: PinMode)
        ensures
            final(self).requests() == old(self).requests().push(PinRequest::Mode(pin, mode)),
    ;

    fn pin_write(&mut self, pin: usize, value: PinState)
        ensures
            final(self).requests() == old(self).requests().push(PinRequest::Write(pin, value)),
    ;

    fn pin_read(&mut self, pin: usize) -> (s: PinState)
        ensures
            final(self).requests() == old(self).requests().push(PinRequest::Read(pin, s)),
    ;

    fn pin_detach_irq(&mut self, pin: usize)
        ensures
            final(self).requests() == old(self).requests().push(PinRequest::DetachIrq(pin)),
    ;

    fn pin_irq_enable(&mut self, pin: usize, enabled: u8)
        ensures
            final(self).requests() == old(self).requests().push(PinRequest::IrqEnable(pin, enabled)),
    ;

    fn pin_get(&mut self, name: &str) -> (n: usize)
        ensures
            final(self).requests() == old(self).requests().push(PinRequest::Lookup(name@, n)),
    ;
}

/// A pin number with a level, as read from or written to a pin device.
#[derive(Copy, Clone, Debug)]
pub struct DevicePinValue {
    pub pin: usize,
    pub value: PinState,
}

/// A pin number with a mode, as handed to a pin device's control.
#[derive(Copy, Clone, Debug)]
pub struct DevicePinMode {
    pub pin: usize,
    pub mode: PinMode,
}

impl DevicePinValue {
    /// Pin `pin` at level `value`.
    pub fn init(pin: usize, value: PinState) -> (v: Self)
        ensures
            v.pin == pin,
            v.value == value,
    {
        DevicePinValue { pin, value }
    }

    /// Changes the level.
    pub fn set_value(&mut self, value: PinState)
        ensures
            final(self).value == value,
            final(self).pin == old(self).pin,
    {
        self.value = value;
    }
}

impl DevicePinMode {
    /// Pin `pin` in mode `mode`.
    pub fn init(pin: usize, mode: PinMode) -> (m: Self)
        ensures
            m.pin == pin,
            m.mode == mode,
    {
        DevicePinMode { pin, mode }
    }
}

/// A request handed to a pin controller.
pub enum PinRequest {
    Mode(usize, PinMode),
    Write(usize, PinState),
    Read(usize, PinState),
    DetachIrq(usize),
    IrqEnable(usize, u8),
    Lookup(Seq<char>, usize),
}

/// A pin device: its device record and the controller that drives the pins.
pub struct DevicePin<O: PinOps> {
    pub parent: Device,
    pub ops: Option<O>,
}

impl<O: PinOps> DevicePin<O> {
    /// The requests the controller has served (none without a controller).
    pub open spec fn requests(&self) -> Seq<PinRequest> {
        match self.ops {
            Some(o) => o.requests(),
            None => Seq::empty(),
        }
    }

    /// A device without controller.
    pub fn new() -> (d: Self)
        ensures
            d.ops is None,
            d.requests() == Seq::<PinRequest>::empty(),
            d.parent.name_view() == Seq::<char>::empty(),
            d.parent.kind() == DeviceClassType::Unknown,
    {
        DevicePin { parent: Device::new(), ops: None }
    }

    /// The controller.
    pub fn ops(&mut self) -> (o: &mut O)
        requires
            old(self).ops is Some,
        ensures
            *o == old(self).ops->0,
            final(self).ops == Some(*final(o)),
            final(self).parent == old(self).parent,
    {
        self.ops.as_mut().unwrap()
    }

    /// Reads the level of the pin named in `buffer` into it. Does nothing and
    /// gives 0 unless a buffer is given and `size` is the size of a pin value;
    /// else gives `size`.
    pub fn read_pin(&mut self, pos: isize, buffer: Option<&mut DevicePinValue>, size: usize) -> (r: isize)
        requires
            buffer is Some && size == core::mem::size_of::<DevicePinValue>() ==> old(self).ops is Some,
        ensures
            r == (if buffer is Some && size == core::mem::size_of::<DevicePinValue>() {
                size as isize
            } else {
                0
            }),
            final(self).parent == old(self).parent,
            final(self).ops is Some <==> old(self).ops is Some,
            final(self).requests() == (match buffer {
                Some(b) => if size == core::mem::size_of::<DevicePinValue>() {
                    old(self).requests().push(PinRequest::Read(b.pin, final(b).value))
                } else {
                    old(self).requests()
                },
                None => old(self).requests(),
            }),
    {
        let expected: usize = core::mem::size_of::<DevicePinValue>();
        match buffer {
            None => 0,
            Some(pin_value) => {
                if size != expected {
                    0
                } else {
                    let pin: usize = pin_value.pin;
                    let level = self.ops().pin_read(pin);
                    pin_value.value = level;
                    size as isize
                }
            },
        }
    }

    /// Drives the pin named in `buffer` to its level. Does nothing and gives 0
    /// unless a buffer is given and `size` is the size of a pin value; else
    /// gives `size`.
    pub fn write_pin(&mut self, pos: isize, buffer: Option<&DevicePinValue>, size: usize) -> (r: isize)
        requires
            buffer is Some && size == core::mem::size_of::<DevicePinValue>() ==> old(self).ops is Some,
        ensures
            r == (if buffer is Some && size == core::mem::size_of::<DevicePinValue>() {
                size as isize
            } else {
                0
            }),
            final(self).parent == old(self).parent,
            final(self).ops is Some <==> old(self).ops is Some,
            final(self).requests() == (match buffer {
                Some(b) => if size == core::mem::size_of::<DevicePinValue>() {
                    old(self).requests().push(PinRequest::Write(b.pin, b.value))
                } else {
                    old(self).requests()
                },
                None => old(self).requests(),
            }),
    {
        let expected: usize = core::mem::size_of::<DevicePinValue>();
        match buffer {
            None => 0,
            Some(pin_value) => {
                if size != expected {
                    0
                } else {
                    self.ops().pin_write(pin_value.pin, pin_value.value);
                    size as isize
                }
            },
        }
    }

    /// Puts the pin named in `args` into its mode; gives -1 without `args`, else 0.
    pub fn control(&mut self, cmd: usize, args: Option<&DevicePinMode>) -> (r: isize)
        requires
            args is Some ==> old(self).ops is Some,
        ensures
            r == (if args is Some { 0isize } else { -1isize }),
            final(self).parent == old(self).parent,
            final(self).ops is Some <==> old(self).ops is Some,
            final(self).requests() == (match args {
                Some(m) => old(self).requests().push(PinRequest::Mode(m.pin, m.mode)),
                None => old(self).requests(),
            }),
    {
        match args {
            None => -1,
            Some(pin_mode) => {
                self.ops().pin_mode(pin_mode.pin, pin_mode.mode);
                0
            },
        }
    }
}

impl<O: PinOps> DeviceOps for DevicePin<O> {
    open spec fn io(&self) -> Seq<crate::device::DeviceIo> {
        self.parent.io_log()
    }

    /// Character reads are not served by this device: the buffer is left as
    /// it is; gives 0.
    fn read(&mut self, pos: isize, buffer: &mut Vec<u8>, size: usize) -> (r: isize)
        ensures
            r == 0,
            *final(buffer) == *old(buffer),
            final(self).ops == old(self).ops,
            final(self).parent.name_view() == old(self).parent.name_view(),
            final(self).parent.kind() == old(self).parent.kind(),
            final(self).parent.counters() == old(self).parent.counters(),
    {
        self.parent.record(Ghost(crate::device::DeviceIo::Read(pos, size, buffer@, buffer@, 0)));
        0
    }

    /// Character writes are not served by this device; gives 0.
    fn write(&mut self, pos: isize, buffer: &[char], size: usize) -> (r: isize)
        ensures
            r == 0,
            final(self).ops == old(self).ops,
            final(self).parent.name_view() == old(self).parent.name_view(),
            final(self).parent.kind() == old(self).parent.kind(),
            final(self).parent.counters() == old(self).parent.counters(),
    {
        self.parent.record(Ghost(crate::device::DeviceIo::Write(pos, buffer@, size, 0)));
        0
    }

    open spec fn name_spec(&self) -> Seq<char> {
        self.parent.name_view()
    }

    /// The device's name.
    fn name(&self) -> (s: &str)
        ensures
            s@ == self.parent.name_view(),
    {
        self.parent.name()
    }
}

impl<O: PinOps> DeviceRegister<O> for DevicePin<O> {
    /// Gives the device its controller and its name, as a pin device.
    fn register(&mut self, name: &str, ops: O)
        ensures
            final(self).ops == Some(ops),
            final(self).parent.name_view() == name@,
            final(self).parent.kind() == DeviceClassType::Pin,
            final(self).parent.counters() == old(self).parent.counters(),
            final(self).requests() == ops.requests(),
    {
        self.ops = Some(ops);
        self.parent.init(name, DeviceClassType::Pin);
    }
}

/// The number of the pin named `name` (such as "PF.11") on the pin device.
pub fn pin_get<O: PinOps>(device: &mut DevicePin<O>, name: &str) -> (n: usize)
    requires
        old(device).ops is Some,
    ensures
        final(device).parent == old(device).parent,
        final(device).ops is Some,
        final(device).requests() == old(device).requests().push(PinRequest::Lookup(name@, n)),
{
    let n = device.ops().pin_get(name);
    n
}

/// Puts pin `pin` of the pin device into mode `mode`.
pub fn pin_mode<O: PinOps>(device: &mut DevicePin<O>, pin: usize, mode: PinMode)
    requires
        old(device).ops is Some,
    ensures
        final(device).parent == old(device).parent,
        final(device).ops is Some,
        final(device).requests() == old(device).requests().push(PinRequest::Mode(pin, mode)),
{
    device.ops().pin_mode(pin, mode);
}

/// Drives pin `pin` of the pin device to `value`.
pub fn pin_write<O: PinOps>(device: &mut DevicePin<O>, pin: usize, value: PinState)
    requires
        old(device).ops is Some,
    ensures
        final(device).parent == old(device).parent,
        final(device).ops is Some,
        final(device).requests() == old(device).requests().push(PinRequest::Write(pin, value)),
{
    device.ops().pin_write(pin, value);
}

/// The level of pin `pin` of the pin device.
pub fn pin_read<O: PinOps>(device: &mut DevicePin<O>, pin: usize) -> (s: PinState)
    requires
        old(device).ops is Some,
    ensures
        final(device).parent == old(device).parent,
        final(device).ops is Some,
        final(device).requests() == old(device).requests().push(PinRequest::Read(pin, s)),
{
    let s = device.ops().pin_read(pin);
    s
}

/// Creates a pin device named `name`, driven by `ops`, and registers it with
/// `system` under that name (in place of a device already kept under it).
pub fn register_pin_device<O: PinOps + 'static>(system: &mut System, name: &str, ops: O)
    ensures
        System::only_sched_changed(old(system), final(system)),
        final(system).sched() == old(system).sched(),
        old(system).none_named(name@) ==> final(system).device_names() == old(system).device_names().push(name@),
        !old(system).none_named(name@) ==> final(system).device_names() == old(system).device_names(),
        final(system).registrations() == old(system).registrations().push(name@),
{
    let mut device: DevicePin<O> = DevicePin::new();
    device.register(name, ops);
    system.device_register(device);
}

} // verus!
