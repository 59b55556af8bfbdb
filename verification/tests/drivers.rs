use std::cell::RefCell;
use std::rc::Rc;

use kernel::device::{DeviceOps, DeviceRegister};
use kernel::gpio::{GPIOTypeDef, StmPin};
use kernel::i2c::{decode_pos, DeviceI2cBus, I2cBusOps, I2cCtrlArg, I2cDevCtrl, I2cMsg, I2cPrivData, I2cState};
use kernel::i2c_bit::{I2cBit, I2cBitOps};
use kernel::ipc::{Mutex, Semaphore, Spinlock};
use kernel::pin::{pin_get, pin_mode, pin_read, pin_write, DevicePin, DevicePinMode, DevicePinValue, PinMode, PinState};
use kernel::system::System;
use kernel::uart::{register_uart_device, DeviceUart, SerialConfigure, UartOps};
use kernel::watchdog::{register_watchdog_device, DeviceWatchDog, DeviceWatchDogCTRL, WatchDogOps};

fn port() -> GPIOTypeDef {
    GPIOTypeDef { moder: 0, otyper: 0, ospeedr: 0, pupdr: 0, idr: 0, odr: 0, bsrr: 0, lckr: 0, afr: [0; 2] }
}

#[test]
fn pin_state_and_mode_conversions() {
    assert!(bool::from(PinState::HIGH));
    assert!(!bool::from(PinState::LOW));
    assert_eq!(PinState::from(true), PinState::HIGH);
    assert_eq!(usize::from(PinMode::OUTPUT), 0);
    assert_eq!(usize::from(PinMode::OutputOd), 4);
    assert_eq!(PinMode::from_code(2), PinMode::InputPullup);
    let mut v = DevicePinValue::init(3, PinState::LOW);
    v.set_value(PinState::HIGH);
    assert_eq!(v.value, PinState::HIGH);
    assert_eq!(DevicePinMode::init(4, PinMode::INPUT).pin, 4);
}

#[test]
fn pin_device_reads_writes_and_configures() {
    let mut dev: DevicePin<StmPin> = DevicePin::new();
    dev.register("pin", StmPin::new(vec![port(), port(), port(), port(), port(), port()]));
    assert_eq!(dev.name(), "pin");
    let size = core::mem::size_of::<DevicePinValue>();
    let led = pin_get(&mut dev, "PF.11");
    assert_eq!(led, 91);
    assert_eq!(dev.control(0, Some(&DevicePinMode::init(led, PinMode::OUTPUT))), 0);
    assert_eq!(dev.control(0, None), -1);
    assert_eq!(dev.ops().ports[5].moder, 1 << 22);
    let value = DevicePinValue::init(led, PinState::HIGH);
    assert_eq!(dev.write_pin(0, Some(&value), size), size as isize);
    assert_eq!(dev.ops().ports[5].bsrr, 1 << 11);
    assert_eq!(dev.write_pin(0, Some(&value), size + 1), 0);
    assert_eq!(dev.write_pin(0, None, size), 0);
    dev.ops().ports[5].idr = 1 << 11;
    let mut read_back = DevicePinValue::init(led, PinState::LOW);
    assert_eq!(dev.read_pin(0, Some(&mut read_back), size), size as isize);
    assert_eq!(read_back.value, PinState::HIGH);
    pin_write(&mut dev, led, PinState::LOW);
    assert_eq!(dev.ops().ports[5].bsrr, (1 << 11) | (1 << 27));
    pin_mode(&mut dev, led, PinMode::InputPulldown);
    assert_eq!(dev.ops().ports[5].pupdr, 2 << 22);
    assert_eq!(pin_read(&mut dev, led), PinState::HIGH);
}

struct Recorder {
    out: Rc<RefCell<Vec<char>>>,
}

impl UartOps for Recorder {
    fn configure(&mut self, _cfg: &mut SerialConfigure) {}
    fn control(&mut self, _cmd: usize, _arg: usize) {}
    fn putc(&mut self, c: char) {
        self.out.borrow_mut().push(c);
    }
    fn getc(&mut self) -> Option<u8> {
        None
    }
}

#[test]
fn uart_device_sends_one_or_all_characters() {
    let out = Rc::new(RefCell::new(Vec::new()));
    let mut dev: DeviceUart<Recorder> = DeviceUart::new();
    assert_eq!(DeviceOps::write(&mut dev, 0, &['x'], 1), 0);
    dev.register("uart1", Recorder { out: out.clone() });
    assert_eq!(DeviceOps::write(&mut dev, 0, &['h', 'i', '!'], 1), 1);
    assert_eq!(*out.borrow(), vec!['h']);
    assert_eq!(DeviceOps::write(&mut dev, 0, &['o', 'k'], 2), 2);
    assert_eq!(*out.borrow(), vec!['h', 'o', 'k']);
    let mut buf = vec![1u8];
    assert_eq!(DeviceOps::read(&mut dev, 0, &mut buf, 1), 1);
    assert_eq!(buf, vec![1u8]);
}

#[test]
fn console_goes_to_the_named_device() {
    let out = Rc::new(RefCell::new(Vec::new()));
    let mut sys = System::new();
    assert_eq!(sys.getc(), 32);
    sys.putc('z');
    let mut dev: DeviceUart<Recorder> = DeviceUart::new();
    dev.register("uart1", Recorder { out: out.clone() });
    sys.device_register(dev);
    sys.putc('z');
    assert!(out.borrow().is_empty());
    sys.set_console(String::from("uart1"));
    sys.putc('a');
    sys.puts("bc");
    sys.puts("d");
    assert_eq!(*out.borrow(), vec!['a', 'b', 'c', 'd']);
    assert_eq!(sys.getc(), 32);
    assert!(sys.console_device().is_some());
    assert_eq!(sys.device_list_mut().len(), 1);
    let mut again: DeviceUart<Recorder> = DeviceUart::new();
    again.register("uart1", Recorder { out: out.clone() });
    sys.device_register(again);
    assert_eq!(sys.device_list_mut().len(), 1);
}

struct Dog {
    log: Rc<RefCell<Vec<(DeviceWatchDogCTRL, Option<u32>)>>>,
}

impl WatchDogOps for Dog {
    fn init(&mut self) {}
    fn control(&mut self, cmd: DeviceWatchDogCTRL, args: Option<&mut u32>) {
        self.log.borrow_mut().push((cmd, args.map(|a| *a)));
    }
}

#[test]
fn watchdog_device_dispatches_commands() {
    let log = Rc::new(RefCell::new(Vec::new()));
    let mut dev: DeviceWatchDog<Dog> = DeviceWatchDog::new();
    dev.register("wdt", Dog { log: log.clone() });
    assert_eq!(DeviceOps::init(&mut dev), 0);
    assert_eq!(dev.open(0), 0);
    assert_eq!(dev.close(), 0);
    assert_eq!(DeviceOps::control(&mut dev, 3, 5), 0);
    assert_eq!(DeviceOps::control(&mut dev, 9, 0), 0);
    assert_eq!(
        *log.borrow(),
        vec![
            (DeviceWatchDogCTRL::Start, None),
            (DeviceWatchDogCTRL::Stop, None),
            (DeviceWatchDogCTRL::SetTimeout, Some(5)),
        ]
    );
}

#[test]
fn a_registered_watchdog_is_driven_through_the_registry() {
    let log = Rc::new(RefCell::new(Vec::new()));
    let mut sys = System::new();
    register_watchdog_device(&mut sys, "wdt", Dog { log: log.clone() });
    assert_eq!(sys.device_list_mut()[0].device.open(0), 0);
    assert_eq!(sys.device_list_mut()[0].device.control(2, 7), 0);
    assert_eq!(
        *log.borrow(),
        vec![(DeviceWatchDogCTRL::Start, None), (DeviceWatchDogCTRL::GetTimeout, Some(7))]
    );
}

#[test]
fn i2c_flag_codes() {
    assert_eq!(usize::from(I2cState::RD), 1);
    assert_eq!(usize::from(I2cState::Addr10bit), 4);
    assert_eq!(usize::from(I2cState::NoStop), 0x80);
    assert_eq!(I2cState::from_code(0x20), I2cState::IgnoreNack);
    assert_eq!(I2cDevCtrl::from_code(4), I2cDevCtrl::RW);
    assert_eq!(decode_pos(0x0003_001e), (0x1e, 3));
}

#[test]
fn i2c_messages() {
    let mut m = I2cMsg::init(0x1e, 1, 2, Some(vec![0, 0]));
    assert_eq!((m.addr(), m.flags(), m.len()), (0x1e, 1, 2));
    m.buf_offset(1, 9);
    m.buf_offset(5, 9);
    assert_eq!(m.take_buf(), Some(vec![0, 9]));
    assert_eq!(m.take_buf(), None);
    let mut d = I2cPrivData::init(I2cMsg::init(1, 0, 0, None), 1);
    assert_eq!(d.number(), 1);
    assert_eq!(d.msgs().addr(), 1);
}

struct Bus {
    seen: Rc<RefCell<Vec<(u16, u16, usize)>>>,
    controls: Rc<RefCell<Vec<(usize, usize)>>>,
}

impl I2cBusOps for Bus {
    fn master_xfer(&mut self, msgs: &mut Vec<I2cMsg>) -> usize {
        for m in msgs.iter_mut() {
            self.seen.borrow_mut().push((m.addr(), m.flags(), m.len()));
            m.buf_offset(0, 0xAB);
        }
        msgs.len()
    }
    fn i2c_bus_control(&mut self, cmd: usize, arg: usize) {
        self.controls.borrow_mut().push((cmd, arg));
    }
}

#[test]
fn i2c_bus_device_reads_writes_and_controls() {
    let seen = Rc::new(RefCell::new(Vec::new()));
    let controls = Rc::new(RefCell::new(Vec::new()));
    let mut dev: DeviceI2cBus<Bus> = DeviceI2cBus::new();
    dev.register("i2c2", Bus { seen: seen.clone(), controls: controls.clone() });
    let mut buf = vec![0u8; 2];
    assert_eq!(dev.read_bus(0x0000_001e, &mut buf, 2), 0);
    assert_eq!(buf, vec![0xAB, 0]);
    let mut out = vec![4u8, 0];
    assert_eq!(dev.write_bus(0x0004_001e, &mut out, 2), 0);
    assert_eq!(*seen.borrow(), vec![(0x1e, 0, 2), (0x1e, 5, 2)]);
    let mut nothing = I2cCtrlArg::Nothing;
    assert_eq!(dev.bus_control(1, &mut nothing), 0);
    assert_eq!(dev.flags, 4);
    let mut t = I2cCtrlArg::Value(50);
    dev.bus_control(3, &mut t);
    assert_eq!(dev.timeout, 50);
    let mut rw = I2cCtrlArg::Data(I2cPrivData::init(I2cMsg::init(7, 1, 1, Some(vec![0])), 1));
    dev.bus_control(4, &mut rw);
    if let I2cCtrlArg::Data(d) = &mut rw {
        assert_eq!(d.msgs().take_buf(), Some(vec![0xAB]));
    }
    let mut v = I2cCtrlArg::Value(9);
    dev.bus_control(5, &mut v);
    assert_eq!(*controls.borrow(), vec![(5, 9)]);
}

#[test]
fn i2c_bus_device_serves_device_reads_and_writes() {
    let seen = Rc::new(RefCell::new(Vec::new()));
    let controls = Rc::new(RefCell::new(Vec::new()));
    let mut dev: DeviceI2cBus<Bus> = DeviceI2cBus::new();
    let mut buf = vec![7u8];
    assert_eq!(DeviceOps::read(&mut dev, 0x1e, &mut buf, 1), 0);
    assert_eq!(buf, vec![7]);
    dev.register("i2c3", Bus { seen: seen.clone(), controls: controls.clone() });
    assert_eq!(DeviceOps::read(&mut dev, 0x0000_001e, &mut buf, 1), 0);
    assert_eq!(buf, vec![0xAB]);
    assert_eq!(DeviceOps::write(&mut dev, 0x0000_0020, &['A', 'B'], 2), 0);
    assert_eq!(*seen.borrow(), vec![(0x1e, 0, 1), (0x20, 1, 2)]);
    assert_eq!(DeviceOps::control(&mut dev, 1, 0), 0);
    assert_eq!(dev.flags, 4);
    assert_eq!(DeviceOps::control(&mut dev, 3, 40), 0);
    assert_eq!(dev.timeout, 40);
    assert_eq!(DeviceOps::control(&mut dev, 6, 2), 0);
    assert_eq!(DeviceOps::control(&mut dev, 4, 2), 0);
    assert_eq!(*controls.borrow(), vec![(6, 2)]);
}

#[derive(Clone)]
struct Lines {
    log: Rc<RefCell<Vec<(char, usize)>>>,
    sda: Rc<RefCell<Vec<usize>>>,
    scl_stuck: bool,
}

impl I2cBitOps for Lines {
    fn set_sda(&mut self, state: usize) {
        self.log.borrow_mut().push(('d', state));
    }
    fn set_scl(&mut self, state: usize) {
        self.log.borrow_mut().push(('c', state));
    }
    fn get_sda(&mut self) -> usize {
        self.sda.borrow_mut().remove(0)
    }
    fn get_scl(&mut self) -> usize {
        if self.scl_stuck { 0 } else { 1 }
    }
    fn udelay(&mut self, _us: usize) {}
}

fn lines(scl_stuck: bool, sda: Vec<usize>) -> (Lines, Rc<RefCell<Vec<(char, usize)>>>) {
    let log = Rc::new(RefCell::new(Vec::new()));
    (Lines { log: log.clone(), sda: Rc::new(RefCell::new(sda)), scl_stuck }, log)
}

fn byte_writes(data: u8) -> Vec<(char, usize)> {
    let mut v = Vec::new();
    for i in 0..8 {
        v.push(('c', 0));
        v.push(('d', ((data >> i) & 1) as usize));
        v.push(('c', 1));
    }
    v
}

#[test]
fn i2c_bit_conditions() {
    let (ops, log) = lines(false, vec![]);
    let mut bus: I2cBit<Lines> = I2cBit::init(None, 2, 10);
    assert_eq!(bus.start(), Err(kernel::error::Error::Intr));
    bus.ops = Some(ops);
    assert_eq!(bus.start(), Ok(()));
    assert_eq!(bus.restart(), Ok(()));
    assert_eq!(bus.stop(), Ok(()));
    assert_eq!(
        *log.borrow(),
        vec![('d', 0), ('c', 0), ('d', 1), ('c', 1), ('d', 0), ('c', 0), ('d', 0), ('c', 1), ('d', 1)]
    );
}

#[test]
fn i2c_bit_clock_stretch_times_out() {
    let (ops, log) = lines(true, vec![]);
    let mut bus: I2cBit<Lines> = I2cBit::init(None, 2, 3);
    bus.ops = Some(ops);
    assert_eq!(bus.stop(), Err(kernel::error::Error::TimeOut));
    assert_eq!(*log.borrow(), vec![('d', 0), ('c', 1)]);
}

#[test]
fn i2c_bit_sends_seven_bit_addresses_least_significant_bit_first() {
    let (ops, log) = lines(false, vec![]);
    let mut bus: I2cBit<Lines> = I2cBit::new();
    bus.ops = Some(ops);
    bus.retries = 1;
    let msg = I2cMsg::init(0x1e, 1, 0, None);
    assert_eq!(bus.send_address(&msg), Ok(()));
    let mut expected = byte_writes(0x3d);
    expected.extend(vec![('d', 0), ('c', 1), ('d', 1), ('d', 0), ('c', 0)]);
    assert_eq!(*log.borrow(), expected);
}

#[test]
fn i2c_bit_sends_nothing_without_retries() {
    let (ops, log) = lines(false, vec![]);
    let mut bus: I2cBit<Lines> = I2cBit::new();
    bus.ops = Some(ops);
    let msg = I2cMsg::init(0x1e, 0, 0, None);
    assert_eq!(bus.send_address(&msg), Ok(()));
    assert!(log.borrow().is_empty());
}

#[test]
fn i2c_bit_ten_bit_address_with_ignore_nack() {
    let (ops, log) = lines(false, vec![]);
    let mut bus: I2cBit<Lines> = I2cBit::new();
    bus.ops = Some(ops);
    let msg = I2cMsg::init(0x2a5, 0x24, 0, None);
    assert_eq!(bus.send_address(&msg), Ok(()));
    assert_eq!(*log.borrow(), byte_writes(0xa5));
    let mut none: I2cBit<Lines> = I2cBit::new();
    assert_eq!(none.send_address(&msg), Err(kernel::error::Error::IO));
}

#[test]
fn i2c_bit_receives_bytes_most_significant_bit_first() {
    let bits = vec![1, 0, 1, 0, 0, 1, 0, 1, 0, 0, 1, 1, 1, 1, 0, 0];
    let (ops, _log) = lines(false, bits);
    let mut bus: I2cBit<Lines> = I2cBit::new();
    bus.ops = Some(ops);
    let mut msg = I2cMsg::init(0x1e, 1, 2, Some(vec![0, 0]));
    assert_eq!(bus.recv_bytes(&mut msg), Ok(2));
    assert_eq!(msg.take_buf(), Some(vec![0xA5, 0x3C]));
}

#[test]
fn i2c_bit_transfer_runs_every_message() {
    let (ops, log) = lines(false, vec![1; 8]);
    let mut bus: I2cBit<Lines> = I2cBit::new();
    bus.ops = Some(ops);
    let mut msgs = vec![I2cMsg::init(0x1e, 0x40, 1, Some(vec![0]))];
    assert_eq!(bus.master_xfer(&mut msgs), 0);
    assert_eq!(msgs[0].take_buf(), Some(vec![0xFF]));
    let l = log.borrow();
    assert_eq!(l[0], ('d', 0));
    assert_eq!(l[1], ('c', 0));
    assert_eq!(*l.last().unwrap(), ('d', 1));
}

#[test]
fn mutex_lock_and_unlock() {
    let mut m = Mutex::new(5u32);
    {
        let mut g = m.lock().unwrap();
        *g.data() += 1;
    }
    assert!(m.lock().is_none());
    m.unlock();
    let mut g = m.lock().unwrap();
    assert_eq!(*g.data(), 6);
    g.release();
    let mut g = m.lock().unwrap();
    assert_eq!(*g.data(), 6);
}

#[test]
fn spinlock_and_semaphore() {
    let mut s = Spinlock::new();
    s.lock();
    s.unlock();
    s.lock();
    let mut sem = Semaphore::new(1);
    sem.acquire();
    sem.acquire();
    sem.release();
    sem.release();
}

#[test]
fn registering_a_serial_device_enters_it_in_the_system() {
    let out = Rc::new(RefCell::new(Vec::new()));
    let mut sys = System::new();
    register_uart_device(&mut sys, "uart2", Recorder { out: out.clone() });
    assert_eq!(sys.device_list_mut().len(), 1);
    assert_eq!(sys.device_list_mut()[0].name, "uart2");
    sys.set_console(String::from("uart2"));
    sys.puts("ok");
    assert_eq!(*out.borrow(), vec!['o', 'k']);
    assert_eq!(sys.console_device().unwrap().name(), "uart2");
}

#[test]
fn console_named_but_not_registered_reads_a_blank() {
    let mut sys = System::new();
    sys.set_console(String::from("nowhere"));
    assert!(sys.console_device().is_none());
    assert_eq!(sys.getc(), 32);
}
