use vstd::prelude::*;
use crate::device::{Device, DeviceClassType, DeviceOps, DeviceRegister};
use crate::system::System;

verus! {

/// Message flags.
#[derive(PartialEq, Eq, Structural, Copy, Clone, Debug)]
pub enum I2cState {
    WR,
    RD,
    Addr10bit,
    NoStart,
    IgnoreNack,
    NoReadAck,
    NoStop,
}

/// Read from the device (else write to it).
pub const I2C_RD: u16 = 0x1;
/// Ten-bit addressing.
pub const I2C_ADDR_10BIT: u16 = 0x4;
/// No start condition before the message.
pub const I2C_NO_START: u16 = 0x10;
/// Go on when the device does not acknowledge.
pub const I2C_IGNORE_NACK: u16 = 0x20;
/// Do not acknowledge received bytes.
pub const I2C_NO_READ_ACK: u16 = 0x40;
/// No stop condition after the message.
pub const I2C_NO_STOP: u16 = 0x80;

/// The flag bit of each state.
pub open spec fn i2c_state_code(s: I2cState) -> usize {
    match s {
        I2cState::WR => 0,
        I2cState::RD => 0x1,
        I2cState::Addr10bit => 0x4,
        I2cState::NoStart => 0x10,
        I2cState::IgnoreNack => 0x20,
        I2cState::NoReadAck => 0x40,
        I2cState::NoStop => 0x80,
    }
}

/// Whether `v` is the flag bit of a state.
pub open spec fn is_i2c_state_code(v: usize) -> bool {
    v == 0 || v == 0x1 || v == 0x4 || v == 0x10 || v == 0x20 || v == 0x40 || v == 0x80
}

impl From<I2cState> for usize {
    fn from(value: I2cState) -> (c: usize) {
        match value {
            I2cState::WR => 0,
            I2cState::RD => 0x1,
            I2cState::Addr10bit => 0x4,
            I2cState::NoStart => 0x10,
            I2cState::IgnoreNack => 0x20,
            I2cState::NoReadAck => 0x40,
            I2cState::NoStop => 0x80,
        }
    }
}

impl vstd::std_specs::convert::FromSpecImpl<I2cState> for usize {
    open spec fn obeys_from_spec() -> bool {
        true
    }

    open spec fn from_spec(v: I2cState) -> usize {
        i2c_state_code(v)
    }
}

impl I2cState {
    /// The state whose flag bit is `value`.
    pub fn from_code(value: usize) -> (s: I2cState)
        requires
            is_i2c_state_code(value),
        ensures
            i2c_state_code(s) == value,
    {
        match value {
            0 => I2cState::WR,
            0x1 => I2cState::RD,
            0x4 => I2cState::Addr10bit,
            0x10 => I2cState::NoStart,
            0x20 => I2cState::IgnoreNack,
            0x40 => I2cState::NoReadAck,
            _ => I2cState::NoStop,
        }
    }
}

/// One message of a transfer: the device address, the flags, the number of
/// bytes, and the buffer the bytes come from or go to.
pub struct I2cMsg {
    addr: u16,
    flags: u16,
    len: usize,
    buf: Option<Vec<u8>>,
}

impl I2cMsg {
    /// The device address.
    pub closed spec fn spec_addr(&self) -> u16 {
        self.addr
    }

    /// The flags.
    pub closed spec fn spec_flags(&self) -> u16 {
        self.flags
    }

    /// The number of bytes.
    pub closed spec fn spec_len(&self) -> usize {
        self.len
    }

    /// The buffer's contents, if there is a buffer.
    pub closed spec fn buffer(&self) -> Option<Seq<u8>> {
        match self.buf {
            Some(v) => Some(v@),
            None => None,
        }
    }

    /// A message.
    pub fn init(addr: u16, flags: u16, len: usize, buf: Option<Vec<u8>>) -> (m: I2cMsg)
        ensures
            m.spec_addr() == addr,
            m.spec_flags() == flags,
            m.spec_len() == len,
            m.buffer() == (match buf {
                Some(v) => Some(v@),
                None => None::<Seq<u8>>,
            }),
    {
        I2cMsg { addr, flags, len, buf }
    }

    /// The flags.
    pub fn flags(&self) -> (f: u16)
        ensures
            f == self.spec_flags(),
    {
        self.flags
    }

    /// The device address.
    pub fn addr(&self) -> (a: u16)
        ensures
            a == self.spec_addr(),
    {
        self.addr
    }

    /// The number of bytes.
    pub fn len(&self) -> (l: usize)
        ensures
            l == self.spec_len(),
    {
        self.len
    }

    /// Gives the buffer back, leaving the message without one.
    pub fn take_buf(&mut self) -> (b: Option<Vec<u8>>)
        ensures
            b matches Some(v) ==> old(self).buffer() == Some(v@),
            b is None <==> old(self).buffer() is None,
            final(self).buffer() is None,
            final(self).spec_addr() == old(self).spec_addr(),
            final(self).spec_flags() == old(self).spec_flags(),
            final(self).spec_len() == old(self).spec_len(),
    {
        let mut b: Option<Vec<u8>> = None;
        core::mem::swap(&mut b, &mut self.buf);
        b
    }

    /// Stores `data` at offset `bytes` of the buffer; nothing without a
    /// buffer or past its end.
    pub fn buf_offset(&mut self, bytes: usize, data: u8)
        ensures
            final(self).buffer() == (match old(self).buffer() {
                Some(b) => Some(if bytes < b.len() { b.update(bytes as int, data) } else { b }),
                None => None::<Seq<u8>>,
            }),
            final(self).spec_addr() == old(self).spec_addr(),
            final(self).spec_flags() == old(self).spec_flags(),
            final(self).spec_len() == old(self).spec_len(),
    {
        match &mut self.buf {
            None => {},
            Some(b) => {
                if bytes < b.len() {
                    b[bytes] = data;
                }
            },
        }
    }
}

/// A message with the number of messages it stands for, as handed to a bus
/// control command.
pub struct I2cPrivData {
    pub msgs: I2cMsg,
    pub number: usize,
}

impl I2cPrivData {
    /// Wraps `msgs`.
    pub fn init(msgs: I2cMsg, number: usize) -> (d: I2cPrivData)
        ensures
            d.msgs == msgs,
            d.number == number,
    {
        I2cPrivData { msgs, number }
    }

    /// The message.
    pub fn msgs(&mut self) -> (m: &mut I2cMsg)
        ensures
            *m == old(self).msgs,
            final(self).msgs == *final(m),
            final(self).number == old(self).number,
    {
        &mut self.msgs
    }

    /// The number of messages.
    pub fn number(&self) -> (n: usize)
        ensures
            n == self.number,
    {
        self.number
    }
}

/// Bus control commands.
#[derive(PartialEq, Eq, Structural, Copy, Clone, Debug)]
pub enum I2cDevCtrl {
    BIT10,
    ADDR,
    TIMEOUT,
    RW,
    CLK,
    UNLOCK,
    GetState,
    GetMode,
    GetError,
}

/// The code of a bus control command: 1 to 9 in the order of the variants.
pub open spec fn i2c_ctrl_code(c: I2cDevCtrl) -> usize {
    match c {
        I2cDevCtrl::BIT10 => 1,
        I2cDevCtrl::ADDR => 2,
        I2cDevCtrl::TIMEOUT => 3,
        I2cDevCtrl::RW => 4,
        I2cDevCtrl::CLK => 5,
        I2cDevCtrl::UNLOCK => 6,
        I2cDevCtrl::GetState => 7,
        I2cDevCtrl::GetMode => 8,
        I2cDevCtrl::GetError => 9,
    }
}

impl I2cDevCtrl {
    /// The command with code `value` (1 to 9).
    pub fn from_code(value: usize) -> (c: I2cDevCtrl)
        requires
            1 <= value <= 9,
        ensures
            i2c_ctrl_code(c) == value,
    {
        match value {
            1 => I2cDevCtrl::BIT10,
            2 => I2cDevCtrl::ADDR,
            3 => I2cDevCtrl::TIMEOUT,
            4 => I2cDevCtrl::RW,
            5 => I2cDevCtrl::CLK,
            6 => I2cDevCtrl::UNLOCK,
            7 => I2cDevCtrl::GetState,
            8 => I2cDevCtrl::GetMode,
            _ => I2cDevCtrl::GetError,
        }
    }
}

/// The operations a bus provides. A bus keeps, for proofs, the master
/// transfers it has served: each adds its own. By default a slave transfer
/// and a control command do nothing (a slave transfer leaves the messages as
/// they are and gives 0).
pub trait I2cBusOps {
    /// The master transfers served so far, oldest first: the messages handed
    /// over, the messages as the bus left them, and the result.
    open spec fn xfers(&self) -> Seq<(Seq<I2cMsg>, Seq<I2cMsg>, usize)> {
        Seq::empty()
    }

    fn master_xfer(&mut self, msgs: &mut Vec<I2cMsg>) -> (n: usize)
        ensures
            final(self).xfers() == old(self).xfers().push((old(msgs)@, final(msgs)@, n)),
    ;

    fn slave_xfer(&mut self, msgs: &mut Vec<I2cMsg>) -> (n: usize)
        default_ensures
            n == 0,
            final(msgs)@ == old(msgs)@,
    {
        0
    }

    fn i2c_bus_control(&mut self, cmd: usize, arg: usize)
        ensures
            final(self).xfers() == old(self).xfers(),
    {
    }
}

/// The argument of a bus control command.
pub enum I2cCtrlArg {
    Nothing,
    Value(usize),
    Data(I2cPrivData),
}

/// The device address that a read or write position selects: its low 16 bits.
pub open spec fn pos_addr(pos: isize) -> u16 {
    (pos & 0xffff) as u16
}

/// The message flags that a read or write position selects: bits 16 to 31.
pub open spec fn pos_flags(pos: isize) -> u16 {
    ((pos >> 16isize) & 0xffff) as u16
}

/// The address, flags and length of a message.
pub open spec fn msg_header(m: I2cMsg) -> (u16, u16, usize) {
    (m.spec_addr(), m.spec_flags(), m.spec_len())
}

/// The headers of messages, in order.
pub open spec fn msg_headers(msgs: Seq<I2cMsg>) -> Seq<(u16, u16, usize)> {
    msgs.map_values(|m: I2cMsg| msg_header(m))
}

/// The record `new` is `old` with one master transfer more, of the messages
/// `before`, which the bus left as `after`.
pub open spec fn xfer_added(
    old: Seq<(Seq<I2cMsg>, Seq<I2cMsg>, usize)>,
    new: Seq<(Seq<I2cMsg>, Seq<I2cMsg>, usize)>,
    before: Seq<I2cMsg>,
    after: Seq<I2cMsg>,
) -> bool {
    &&& new.len() == old.len() + 1
    &&& new.drop_last() == old
    &&& new.last().0 == before
    &&& new.last().1 == after
}

/// The record `new` is `old` with one master transfer more, of one message to
/// or from `addr` with `flags` and `count` bytes, carrying the buffer `buf`;
/// `back` is the buffer the bus left in the message (empty if none).
pub open spec fn one_msg_xfer(
    old: Seq<(Seq<I2cMsg>, Seq<I2cMsg>, usize)>,
    new: Seq<(Seq<I2cMsg>, Seq<I2cMsg>, usize)>,
    addr: u16,
    flags: u16,
    count: usize,
    buf: Seq<u8>,
    back: Seq<u8>,
) -> bool {
    let before = new.last().0;
    let after = new.last().1;
    &&& new.len() == old.len() + 1
    &&& new.drop_last() == old
    &&& before.len() == 1
    &&& before[0].spec_addr() == addr
    &&& before[0].spec_flags() == flags
    &&& before[0].spec_len() == count
    &&& before[0].buffer() == Some(buf)
    &&& back == (if after.len() > 0 && after[0].buffer() is Some {
        after[0].buffer().unwrap()
    } else {
        Seq::<u8>::empty()
    })
}

/// A bus device: its device record, its flags and timeout, and the bus.
pub struct DeviceI2cBus<O: I2cBusOps> {
    pub parent: Device,
    pub flags: u16,
    pub timeout: usize,
    pub ops: Option<O>,
}

impl<O: I2cBusOps> DeviceI2cBus<O> {
    /// The master transfers the bus has served (none without a bus).
    pub open spec fn transfers(&self) -> Seq<(Seq<I2cMsg>, Seq<I2cMsg>, usize)> {
        match self.ops {
            Some(o) => o.xfers(),
            None => Seq::empty(),
        }
    }

    /// A device without bus.
    pub fn new() -> (d: Self)
        ensures
            d.ops is None,
            d.transfers().len() == 0,
            d.flags == 0,
            d.timeout == 0,
            d.parent.name_view() == Seq::<char>::empty(),
            d.parent.kind() == DeviceClassType::Unknown,
    {
        DeviceI2cBus { parent: Device::new(), flags: 0, timeout: 0, ops: None }
    }

    /// The bus.
    pub fn ops(&mut self) -> (o: &mut O)
        requires
            old(self).ops is Some,
        ensures
            *o == old(self).ops->0,
            final(self).ops == Some(*final(o)),
            final(self).parent == old(self).parent,
            final(self).flags == old(self).flags,
            final(self).timeout == old(self).timeout,
    {
        self.ops.as_mut().unwrap()
    }

    /// Hands `msgs` to the bus as one transfer; gives 0.
    pub fn transfer(&mut self, msgs: &mut Vec<I2cMsg>) -> (r: usize)
        requires
            old(self).ops is Some,
        ensures
            r == 0,
            final(self).ops is Some,
            final(self).parent == old(self).parent,
            final(self).flags == old(self).flags,
            final(self).timeout == old(self).timeout,
            xfer_added(old(self).transfers(), final(self).transfers(), old(msgs)@, final(msgs)@),
    {
        self.ops().master_xfer(msgs);
        proof {
            assert(self.transfers().drop_last() =~= old(self).transfers());
        }
        0
    }

    /// Transfers one message of `count` bytes with device `addr` and flags
    /// `flags`, through `buffer`; gives 0.
    fn master_recv(&mut self, addr: u16, flags: u16, buffer: &mut Vec<u8>, count: usize) -> (r: isize)
        requires
            old(self).ops is Some,
        ensures
            r == 0,
            final(self).ops is Some,
            final(self).parent == old(self).parent,
            final(self).flags == old(self).flags,
            final(self).timeout == old(self).timeout,
            one_msg_xfer(old(self).transfers(), final(self).transfers(), addr, flags, count, old(buffer)@, final(buffer)@),
    {
        let mut data: Vec<u8> = Vec::new();
        core::mem::swap(&mut data, buffer);
        let msg = I2cMsg::init(addr, flags, count, Some(data));
        let mut msgs: Vec<I2cMsg> = Vec::new();
        msgs.push(msg);
        let ghost before = msgs@;
        self.transfer(&mut msgs);
        let ghost after = msgs@;
        if msgs.len() > 0 {
            let back = msgs[0].take_buf();
            if let Some(b) = back {
                *buffer = b;
            }
        }
        proof {
            assert(before.len() == 1 && before[0] == msg);
        }
        0
    }

    /// Transfers one message as `master_recv` does, with the read flag added
    /// to `flags`; gives 0.
    fn master_send(&mut self, addr: u16, flags: u16, buffer: &mut Vec<u8>, count: usize) -> (r: isize)
        requires
            old(self).ops is Some,
        ensures
            r == 0,
            final(self).ops is Some,
            final(self).parent == old(self).parent,
            final(self).flags == old(self).flags,
            final(self).timeout == old(self).timeout,
            one_msg_xfer(old(self).transfers(), final(self).transfers(), addr, flags | I2C_RD, count, old(buffer)@,
                final(buffer)@),
    {
        let f: u16 = flags | I2C_RD;
        self.master_recv(addr, f, buffer, count)
    }

    /// Reads `size` bytes into `buffer` from the device and with the flags
    /// that `pos` selects (see `pos_addr`, `pos_flags`); gives 0.
    pub fn read_bus(&mut self, pos: isize, buffer: &mut Vec<u8>, size: usize) -> (r: isize)
        requires
            old(self).ops is Some,
        ensures
            r == 0,
            final(self).ops is Some,
            final(self).parent == old(self).parent,
            final(self).flags == old(self).flags,
            final(self).timeout == old(self).timeout,
            one_msg_xfer(old(self).transfers(), final(self).transfers(), pos_addr(pos), pos_flags(pos), size,
                old(buffer)@, final(buffer)@),
    {
        let (addr, flags) = decode_pos(pos);
        self.master_recv(addr, flags, buffer, size)
    }

    /// Writes `size` bytes from `buffer` to the device that `pos` selects;
    /// gives 0.
    pub fn write_bus(&mut self, pos: isize, buffer: &mut Vec<u8>, size: usize) -> (r: isize)
        requires
            old(self).ops is Some,
        ensures
            r == 0,
            final(self).ops is Some,
            final(self).parent == old(self).parent,
            final(self).flags == old(self).flags,
            final(self).timeout == old(self).timeout,
            one_msg_xfer(old(self).transfers(), final(self).transfers(), pos_addr(pos), pos_flags(pos) | I2C_RD, size,
                old(buffer)@, final(buffer)@),
    {
        let (addr, flags) = decode_pos(pos);
        self.master_send(addr, flags, buffer, size)
    }

    /// Runs bus control command `cmd` (see `i2c_ctrl_code`): BIT10 turns on
    /// ten-bit addressing, TIMEOUT sets the timeout, RW transfers the message
    /// of the argument; the others go to the bus with the argument's value
    /// (0 where it has none). Gives 0.
    pub fn bus_control(&mut self, cmd: usize, args: &mut I2cCtrlArg) -> (r: isize)
        requires
            1 <= cmd <= 9,
            cmd == 3 ==> *old(args) is Value,
            cmd == 4 ==> *old(args) is Data,
            cmd != 1 && cmd != 3 ==> old(self).ops is Some,
        ensures
            r == 0,
            final(self).parent == old(self).parent,
            final(self).ops is Some <==> old(self).ops is Some,
            final(self).flags == (if cmd == 1 {
                old(self).flags | I2C_ADDR_10BIT
            } else {
                old(self).flags
            }),
            final(self).timeout == (if cmd == 3 {
                old(args)->Value_0
            } else {
                old(self).timeout
            }),
            cmd == 4 ==> xfer_added(old(self).transfers(), final(self).transfers(), seq![old(args)->Data_0.msgs],
                final(self).transfers().last().1),
            cmd == 4 && final(self).transfers().last().1.len() > 0 ==> *final(args) is Data
                && (*final(args))->Data_0.msgs == final(self).transfers().last().1.last(),
            cmd != 4 && cmd != 1 && cmd != 3 ==> final(self).transfers() == old(self).transfers(),
            cmd == 1 || cmd == 3 ==> final(self).ops == old(self).ops,
    {
        let c = I2cDevCtrl::from_code(cmd);
        match c {
            I2cDevCtrl::BIT10 => {
                self.flags = self.flags | I2C_ADDR_10BIT;
            },
            I2cDevCtrl::TIMEOUT => {
                if let I2cCtrlArg::Value(num) = args {
                    self.timeout = *num;
                }
            },
            I2cDevCtrl::RW => {
                if let I2cCtrlArg::Data(priv_data) = args {
                    let mut msgs: Vec<I2cMsg> = Vec::new();
                    let mut msg = I2cMsg::init(0, 0, 0, None);
                    core::mem::swap(&mut msg, priv_data.msgs());
                    msgs.push(msg);
                    proof {
                        assert(msgs@ =~= seq![old(args)->Data_0.msgs]);
                    }
                    self.transfer(&mut msgs);
                    if msgs.len() > 0 {
                        let mut back = msgs.pop().unwrap();
                        core::mem::swap(&mut back, priv_data.msgs());
                    }
                }
            },
            _ => {
                let v: usize = match args {
                    I2cCtrlArg::Value(num) => *num,
                    _ => 0,
                };
                self.ops().i2c_bus_control(cmd, v);
            },
        }
        0
    }
}

/// The byte of the low 8 bits of the code of `c`.
pub open spec fn low_byte_spec(c: char) -> u8 {
    ((c as u32) & 0xff) as u8
}

/// The bytes of the low 8 bits of the characters of `s`.
pub open spec fn low_bytes(s: Seq<char>) -> Seq<u8> {
    s.map_values(|c: char| low_byte_spec(c))
}

/// The byte of the low 8 bits of the code of `c`.
fn low_byte(c: char) -> (b: u8)
    ensures
        b == low_byte_spec(c),
{
    ((c as u32) & 0xff) as u8
}

/// The device address and flags that a read or write position selects.
pub fn decode_pos(pos: isize) -> (r: (u16, u16))
    ensures
        r.0 == pos_addr(pos),
        r.1 == pos_flags(pos),
{
    let addr: u16 = (pos & 0xffff) as u16;
    let flags: u16 = ((pos >> 16isize) & 0xffff) as u16;
    (addr, flags)
}

impl<O: I2cBusOps> DeviceOps for DeviceI2cBus<O> {
    open spec fn io(&self) -> Seq<crate::device::DeviceIo> {
        self.parent.io_log()
    }

    /// Reads `size` bytes into `buffer` from the device that `pos` selects
    /// (see `read_bus`); a device without bus leaves the buffer as it is.
    /// Gives 0.
    fn read(&mut self, pos: isize, buffer: &mut Vec<u8>, size: usize) -> (r: isize)
        ensures
            r == 0,
            final(self).ops is Some <==> old(self).ops is Some,
            old(self).ops is None ==> *final(buffer) == *old(buffer) && final(self).ops == old(self).ops,
            old(self).ops is Some ==> one_msg_xfer(old(self).transfers(), final(self).transfers(), pos_addr(pos),
                pos_flags(pos), size, old(buffer)@, final(buffer)@),
            final(self).flags == old(self).flags,
            final(self).timeout == old(self).timeout,
            final(self).parent.name_view() == old(self).parent.name_view(),
            final(self).parent.kind() == old(self).parent.kind(),
            final(self).parent.counters() == old(self).parent.counters(),
    {
        let ghost b0 = buffer@;
        let r: isize = if self.ops.is_some() {
            self.read_bus(pos, buffer, size)
        } else {
            0
        };
        self.parent.record(Ghost(crate::device::DeviceIo::Read(pos, size, b0, buffer@, r)));
        r
    }

    /// Writes the first `size` characters of `buffer`, each as the byte of
    /// its low 8 bits, to the device that `pos` selects (see `write_bus`);
    /// a device without bus does nothing. Gives 0.
    fn write(&mut self, pos: isize, buffer: &[char], size: usize) -> (r: isize)
        ensures
            r == 0,
            final(self).ops is Some <==> old(self).ops is Some,
            old(self).ops is None ==> final(self).ops == old(self).ops,
            old(self).ops is Some ==> exists|back: Seq<u8>| one_msg_xfer(old(self).transfers(), final(self).transfers(),
                pos_addr(pos), pos_flags(pos) | I2C_RD, size, #[trigger] low_bytes(buffer@), back),
            final(self).flags == old(self).flags,
            final(self).timeout == old(self).timeout,
            final(self).parent.name_view() == old(self).parent.name_view(),
            final(self).parent.kind() == old(self).parent.kind(),
            final(self).parent.counters() == old(self).parent.counters(),
    {
        let mut bytes: Vec<u8> = Vec::new();
        let mut i: usize = 0;
        while i < buffer.len()
            invariant
                i <= buffer@.len(),
                bytes@ == low_bytes(buffer@.take(i as int)),
            decreases buffer@.len() - i,
        {
            bytes.push(low_byte(buffer[i]));
            proof {
                assert(low_bytes(buffer@.take(i + 1)) =~= low_bytes(buffer@.take(i as int)).push(low_byte_spec(buffer@[i as int])));
            }
            i = i + 1;
        }
        proof {
            assert(buffer@.take(buffer@.len() as int) =~= buffer@);
        }
        let ghost sent = bytes@;
        let ghost t0 = self.transfers();
        let r: isize = if self.ops.is_some() {
            self.write_bus(pos, &mut bytes, size)
        } else {
            0
        };
        let ghost t1 = self.transfers();
        self.parent.record(Ghost(crate::device::DeviceIo::Write(pos, buffer@, size, r)));
        proof {
            assert(self.transfers() == t1);
            if old(self).ops is Some {
                assert(sent == low_bytes(buffer@));
                assert(one_msg_xfer(t0, t1, pos_addr(pos), pos_flags(pos) | I2C_RD, size, sent, bytes@));
            }
        }
        r
    }

    /// Runs bus control command `cmd` with the value `arg` (see
    /// `bus_control`): BIT10 turns on ten-bit addressing, TIMEOUT sets the
    /// timeout to `arg`, the codes 2 and 5 to 9 go to the bus with `arg`. RW
    /// needs messages, which a value cannot carry, so it changes nothing
    /// here, nor do other codes, nor bus commands on a device without bus.
    /// Gives 0.
    fn control(&mut self, cmd: usize, arg: usize) -> (r: isize)
        ensures
            r == 0,
            final(self).parent == old(self).parent,
            final(self).ops is Some <==> old(self).ops is Some,
            final(self).flags == (if cmd == 1 {
                old(self).flags | I2C_ADDR_10BIT
            } else {
                old(self).flags
            }),
            final(self).timeout == (if cmd == 3 {
                arg
            } else {
                old(self).timeout
            }),
            final(self).transfers() == old(self).transfers(),
            cmd == 1 || cmd == 3 || cmd == 4 || cmd == 0 || cmd > 9 || old(self).ops is None ==> final(self).ops
                == old(self).ops,
    {
        if 1 <= cmd && cmd <= 9 && cmd != 4 && (cmd == 1 || cmd == 3 || self.ops.is_some()) {
            let mut a = I2cCtrlArg::Value(arg);
            self.bus_control(cmd, &mut a)
        } else {
            0
        }
    }

    open spec fn name_spec(&self) -> Seq<char> {
        self.parent.name_view()
    }

    /// The device's name.
    fn name(&self) -> (s: &str)
        ensures
            s@ == self.parent.name_view(),
    {
        self.parent.name()
    }
}

impl<O: I2cBusOps> DeviceRegister<O> for DeviceI2cBus<O> {
    /// Gives the device its bus and its name, as an I2C bus device.
    fn register(&mut self, name: &str, ops: O)
        ensures
            final(self).ops == Some(ops),
            final(self).parent.name_view() == name@,
            final(self).parent.kind() == DeviceClassType::I2CBUS,
            final(self).parent.counters() == old(self).parent.counters(),
            final(self).flags == old(self).flags,
            final(self).timeout == old(self).timeout,
            final(self).transfers() == ops.xfers(),
    {
        self.ops = Some(ops);
        self.parent.init(name, DeviceClassType::I2CBUS);
    }
}

/// Creates a I2C bus device named `name`, driven by `ops`, and registers it with
/// `system` under that name (in place of a device already kept under it).
pub fn register_i2c_bus_device<O: I2cBusOps + 'static>(system: &mut System, name: &str, ops: O)
    ensures
        System::only_sched_changed(old(system), final(system)),
        final(system).sched() == old(system).sched(),
        old(system).none_named(name@) ==> final(system).device_names() == old(system).device_names().push(name@),
        !old(system).none_named(name@) ==> final(system).device_names() == old(system).device_names(),
        final(system).registrations() == old(system).registrations().push(name@),
{
    let mut device: DeviceI2cBus<O> = DeviceI2cBus::new();
    device.register(name, ops);
    system.device_register(device);
}

} // verus!
