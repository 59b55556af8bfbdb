use vstd::prelude::*;
use crate::device::{Device, DeviceClassType, DeviceOps, DeviceRegister};
use crate::system::System;

verus! {

/// Serial line settings.
#[derive(Copy, Clone, Debug)]
pub struct SerialConfigure {
    pub baud_rate: u32,
    pub data_bits: u32,
    pub stop_bits: u32,
    pub parity: u32,
    pub bit_order: u32,
    pub invert: u32,
    pub bufsz: u32,
    pub flowcontrol: u32,
    pub reserved: u32,
}

/// A request other than sending a character, served by a serial port.
pub enum UartEvent {
    /// The settings handed over, and as the port left them.
    Configure(SerialConfigure, SerialConfigure),
    Control(usize, usize),
    /// A character asked for, and what the port gave.
    Get(Option<u8>),
}

/// The operations a serial port provides. A port keeps, for proofs, the
/// characters it was handed to send and the other requests it served; each
/// operation adds its own.
pub trait UartOps {
    /// The characters handed to `putc` so far, oldest first.
    open spec fn put_chars(&self) -> Seq<char> {
        Seq::empty()
    }

    /// The other requests served so far, oldest first.
    open spec fn events(&self) -> Seq<UartEvent> {
        Seq::empty()
    }

    fn configure(&mut self, cfg: &mut SerialConfigure)
        ensures
            final(self).put_chars() == old(self).put_chars(),
            final(self).events() == old(self).events().push(UartEvent::Configure(*old(cfg), *final(cfg))),
    ;

    fn control(&mut self, cmd: usize, arg: usize)
        ensures
            final(self).put_chars() == old(self).put_chars(),
            final(self).events() == old(self).events().push(UartEvent::Control(cmd, arg)),
    ;

    fn putc(&mut self, c: char)
        ensures
            final(self).put_chars() == old(self).put_chars().push(c),
            final(self).events() == old(self).events(),
    ;

    fn getc(&mut self) -> (r: Option<u8>)
        ensures
            final(self).put_chars() == old(self).put_chars(),
            final(self).events() == old(self).events().push(UartEvent::Get(r)),
    ;
}

/// A serial device: its device record and the port that drives it.
pub struct DeviceUart<O: UartOps> {
    pub parent: Device,
    pub ops: Option<O>,
}

impl<O: UartOps> DeviceUart<O> {
    /// The characters the port was handed to send (none without a port).
    pub open spec fn sent(&self) -> Seq<char> {
        match self.ops {
            Some(o) => o.put_chars(),
            None => Seq::empty(),
        }
    }

    /// A device without port.
    pub fn new() -> (d: Self)
        ensures
            d.ops is None,
            d.sent() == Seq::<char>::empty(),
            d.parent.name_view() == Seq::<char>::empty(),
            d.parent.kind() == DeviceClassType::Unknown,
    {
        DeviceUart { parent: Device::new(), ops: None }
    }

    /// The port.
    pub fn ops(&mut self) -> (o: &mut O)
        requires
            old(self).ops is Some,
        ensures
            *o == old(self).ops->0,
            final(self).ops == Some(*final(o)),
            final(self).parent == old(self).parent,
    {
        self.ops.as_mut().unwrap()
    }

    /// The device's name.
    pub fn name(&self) -> (s: &str)
        ensures
            s@ == self.parent.name_view(),
    {
        self.parent.name()
    }
}

impl<O: UartOps> DeviceOps for DeviceUart<O> {
    open spec fn name_spec(&self) -> Seq<char> {
        self.parent.name_view()
    }

    open spec fn io(&self) -> Seq<crate::device::DeviceIo> {
        self.parent.io_log()
    }

    /// The device's name.
    fn name(&self) -> (s: &str)
        ensures
            s@ == self.parent.name_view(),
    {
        self.parent.name()
    }

    /// Reading is not done through this device: the buffer is left as it
    /// is; gives `size`.
    fn read(&mut self, pos: isize, buffer: &mut Vec<u8>, size: usize) -> (r: isize)
        ensures
            r == size as isize,
            *final(buffer) == *old(buffer),
            final(self).ops == old(self).ops,
            final(self).parent.name_view() == old(self).parent.name_view(),
            final(self).parent.kind() == old(self).parent.kind(),
            final(self).parent.counters() == old(self).parent.counters(),
    {
        let r: isize = size as isize;
        self.parent.record(Ghost(crate::device::DeviceIo::Read(pos, size, buffer@, buffer@, r)));
        r
    }

    /// Sends `buffer` through the port: only its first character (if any)
    /// when `size` is 1, else all of it, and gives `size`; gives 0 and sends
    /// nothing when the device has no port.
    fn write(&mut self, pos: isize, buffer: &[char], size: usize) -> (r: isize)
        ensures
            final(self).parent.name_view() == old(self).parent.name_view(),
            final(self).parent.kind() == old(self).parent.kind(),
            final(self).parent.counters() == old(self).parent.counters(),
            final(self).ops is Some <==> old(self).ops is Some,
            old(self).ops is None ==> r == 0 && final(self).sent() == old(self).sent(),
            old(self).ops is Some ==> r == size as isize && final(self).sent() == (if size == 1
                && buffer@.len() == 0 {
                old(self).sent()
            } else if size == 1 {
                old(self).sent().push(buffer@[0])
            } else {
                old(self).sent() + buffer@
            }),
    {
        if self.ops.is_none() {
            self.parent.record(Ghost(crate::device::DeviceIo::Write(pos, buffer@, size, 0)));
            return 0;
        }
        if size == 1 {
            if buffer.len() > 0 {
                let c: char = buffer[0];
                self.ops().putc(c);
            }
        } else {
            let ghost start = self.sent();
            proof {
                assert(start + buffer@.take(0) =~= start);
            }
            let mut i: usize = 0;
            while i < buffer.len()
                invariant
                    i <= buffer@.len(),
                    self.ops is Some,
                    self.sent() == start + buffer@.take(i as int),
                    self.parent == old(self).parent,
                decreases buffer@.len() - i,
            {
                let c: char = buffer[i];
                self.ops().putc(c);
                proof {
                    assert(start + buffer@.take(i + 1) =~= (start + buffer@.take(i as int)).push(c));
                }
                i = i + 1;
            }
            proof {
                assert(buffer@.take(buffer@.len() as int) =~= buffer@);
            }
        }
        let r: isize = size as isize;
        self.parent.record(Ghost(crate::device::DeviceIo::Write(pos, buffer@, size, r)));
        r
    }
}

impl<O: UartOps> DeviceRegister<O> for DeviceUart<O> {
    /// Gives the device its port and its name, as a character device.
    fn register(&mut self, name: &str, ops: O)
        ensures
            final(self).ops == Some(ops),
            final(self).parent.name_view() == name@,
            final(self).parent.kind() == DeviceClassType::Char,
            final(self).parent.counters() == old(self).parent.counters(),
            final(self).sent() == ops.put_chars(),
    {
        self.ops = Some(ops);
        self.parent.init(name, DeviceClassType::Char);
    }
}

/// Creates a serial device named `name`, driven by `ops`, and registers it with
/// `system` under that name (in place of a device already kept under it).
pub fn register_uart_device<O: UartOps + 'static>(system: &mut System, name: &str, ops: O)
    ensures
        System::only_sched_changed(old(system), final(system)),
        final(system).sched() == old(system).sched(),
        old(system).none_named(name@) ==> final(system).device_names() == old(system).device_names().push(name@),
        !old(system).none_named(name@) ==> final(system).device_names() == old(system).device_names(),
        final(system).registrations() == old(system).registrations().push(name@),
{
    let mut device: DeviceUart<O> = DeviceUart::new();
    device.register(name, ops);
    system.device_register(device);
}

} // verus!
