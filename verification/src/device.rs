use vstd::prelude::*;

verus! {

/// The classes of devices.
#[derive(PartialEq, Eq, Structural, Copy, Clone, Debug)]
pub enum DeviceClassType {
    Char,
    Block,
    NetIf,
    MTD,
    CAN,
    RTC,
    Sound,
    Graphic,
    I2CBUS,
    USBDevice,
    USBHost,
    USBOTG,
    SPIBUS,
    SPIDevice,
    SDIO,
    PM,
    Pipe,
    Portal,
    Timer,
    Miscellaneous,
    Sensor,
    Touch,
    PHY,
    Security,
    WLAN,
    Pin,
    ADC,
    DAC,
    WDT,
    PWM,
    Bus,
    Unknown,
}

/// A read or write served by a device: for a read, the position, the size,
/// the buffer before and after, and the result; for a write, the position,
/// the characters handed over, the size, and the result.
pub enum DeviceIo {
    Read(isize, usize, Seq<u8>, Seq<u8>, isize),
    Write(isize, Seq<char>, usize, isize),
}

/// What every device has: a name, a class and its flags, and (for proofs)
/// the reads and writes it has served.
pub struct Device {
    name: String,
    kind: DeviceClassType,
    flag: u16,
    open_flag: u16,
    ref_count: u8,
    device_id: u8,
    io: Ghost<Seq<DeviceIo>>,
}

impl Device {
    /// The device's name.
    pub closed spec fn name_view(&self) -> Seq<char> {
        self.name@
    }

    /// The device's class.
    pub closed spec fn kind(&self) -> DeviceClassType {
        self.kind
    }

    /// The reads and writes served so far, oldest first.
    pub closed spec fn io_log(&self) -> Seq<DeviceIo> {
        self.io@
    }

    /// Notes a read or write just served.
    pub(crate) fn record(&mut self, e: Ghost<DeviceIo>)
        ensures
            final(self).io_log() == old(self).io_log().push(e@),
            final(self).name_view() == old(self).name_view(),
            final(self).kind() == old(self).kind(),
            final(self).counters() == old(self).counters(),
    {
        proof {
            self.io@ = self.io@.push(e@);
        }
    }

    /// Flags, open flags, reference count and id, in that order.
    pub closed spec fn counters(&self) -> (u16, u16, u8, u8) {
        (self.flag, self.open_flag, self.ref_count, self.device_id)
    }

    /// A device without a name, of unknown class, with all counters at 0.
    pub fn new() -> (d: Self)
        ensures
            d.name_view() == Seq::<char>::empty(),
            d.kind() == DeviceClassType::Unknown,
            d.counters() == (0u16, 0u16, 0u8, 0u8),
            d.io_log() == Seq::<DeviceIo>::empty(),
    {
        Device {
            name: String::new(),
            kind: DeviceClassType::Unknown,
            flag: 0,
            open_flag: 0,
            ref_count: 0,
            device_id: 0,
            io: Ghost(Seq::empty()),
        }
    }

    /// Names the device and sets its class.
    pub fn init(&mut self, name: &str, kind: DeviceClassType)
        ensures
            final(self).name_view() == name@,
            final(self).kind() == kind,
            final(self).counters() == old(self).counters(),
            final(self).io_log() == old(self).io_log(),
    {
        self.kind = kind;
        self.name = name.to_owned();
    }

    /// The device's name.
    pub fn name(&self) -> (s: &str)
        ensures
            s@ == self.name_view(),
    {
        self.name.as_str()
    }
}

/// What the kernel asks of a registered device. Every device keeps, for
/// proofs, the reads and writes it has served: each read or write adds its
/// own. Other requests by default do nothing and give 0. Written text comes
/// as characters.
pub trait DeviceOps {
    /// The name the device answers to.
    spec fn name_spec(&self) -> Seq<char>;

    fn name(&self) -> (s: &str)
        ensures
            s@ == self.name_spec(),
    ;

    fn init(&mut self) -> (r: isize)
        default_ensures
            r == 0,
            final(self).name_spec() == old(self).name_spec(),
    {
        0
    }

    fn open(&mut self, oflag: u16) -> (r: isize)
        default_ensures
            r == 0,
            final(self).name_spec() == old(self).name_spec(),
    {
        0
    }

    fn close(&mut self) -> (r: isize)
        default_ensures
            r == 0,
            final(self).name_spec() == old(self).name_spec(),
    {
        0
    }

    /// The reads and writes served so far, oldest first.
    spec fn io(&self) -> Seq<DeviceIo>;

    fn read(&mut self, pos: isize, buffer: &mut Vec<u8>, size: usize) -> (r: isize)
        ensures
            final(self).io() == old(self).io().push(DeviceIo::Read(pos, size, old(buffer)@, final(buffer)@, r)),
            final(self).name_spec() == old(self).name_spec(),
    ;

    fn write(&mut self, pos: isize, buffer: &[char], size: usize) -> (r: isize)
        ensures
            final(self).io() == old(self).io().push(DeviceIo::Write(pos, buffer@, size, r)),
            final(self).name_spec() == old(self).name_spec(),
    ;

    fn control(&mut self, cmd: usize, arg: usize) -> (r: isize)
        default_ensures
            r == 0,
            final(self).name_spec() == old(self).name_spec(),
    {
        0
    }

    fn rx_indicate(&mut self, size: usize) -> (r: isize)
        default_ensures
            r == 0,
            final(self).name_spec() == old(self).name_spec(),
    {
        0
    }

    fn tx_complete(&mut self) -> (r: isize)
        default_ensures
            r == 0,
            final(self).name_spec() == old(self).name_spec(),
    {
        0
    }
}

/// Registration of a device under a name, with the operations `T` that drive it.
pub trait DeviceRegister<T> {
    fn register(&mut self, name: &str, ops: T);
}

} // verus!
