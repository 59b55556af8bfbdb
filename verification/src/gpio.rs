use vstd::prelude::*;
use crate::pin::{PinMode, PinOps, PinRequest, PinState, pin_mode_code};
use vstd::string::StringSliceAdditionalSpecFns;

verus! {

/// General-purpose I/O port registers.
pub struct GPIOTypeDef {
    /// Mode register: two bits per pin.
    pub moder: u32,
    /// Output type register: one bit per pin.
    pub otyper: u32,
    /// Output speed register: two bits per pin.
    pub ospeedr: u32,
    /// Pull-up/pull-down register: two bits per pin.
    pub pupdr: u32,
    /// Input data register.
    pub idr: u32,
    /// Output data register.
    pub odr: u32,
    /// Bit set/reset register: the low half sets pins, the high half resets them.
    pub bsrr: u32,
    /// Configuration lock register.
    pub lckr: u32,
    /// Alternate function registers: four bits per pin, pins 0-7 then 8-15.
    pub afr: [u32; 2],
}

/// `reg` with the field `mask << shift` cleared and `val << shift` or-ed in.
pub open spec fn set_field(reg: u32, shift: u32, mask: u32, val: u32) -> u32 {
    (reg & !(mask << shift)) | (val << shift)
}

/// Whether bit `pos` of the pin mask `pins` is set.
pub open spec fn pin_selected(pins: u32, pos: u32) -> bool {
    pins & (1u32 << pos) == (1u32 << pos)
}

/// `reg` after writing `val` into the field of `width` bits (mask `mask`) of
/// each selected pin among pins `0..k`, in increasing pin order.
pub open spec fn fold_field(reg: u32, pins: u32, width: u32, mask: u32, val: u32, k: nat) -> u32
    decreases k,
{
    if k == 0 {
        reg
    } else {
        let prev = fold_field(reg, pins, width, mask, val, (k - 1) as nat);
        let p = (k - 1) as u32;
        if pin_selected(pins, p) {
            set_field(prev, (p * width) as u32, mask, val)
        } else {
            prev
        }
    }
}

/// AFR word `half` (0 for pins 0-7, 1 for pins 8-15) after writing the 4-bit
/// function `afx` for each selected pin among pins `0..k` that it holds.
pub open spec fn fold_af(reg: u32, pins: u32, afx: u32, half: u32, k: nat) -> u32
    decreases k,
{
    if k == 0 {
        reg
    } else {
        let prev = fold_af(reg, pins, afx, half, (k - 1) as nat);
        let p = (k - 1) as u32;
        if p / 8 == half && pin_selected(pins, p) {
            set_field(prev, ((p % 8) * 4) as u32, 0x0Fu32, afx)
        } else {
            prev
        }
    }
}

/// Whether a mode value makes the pin an output or alternate function, whose
/// speed and output type are then set too.
pub open spec fn drives_output(mode: u32) -> bool {
    mode == 1 || mode == 2
}

/// The state of a port after `set(pins, mode, otype, ospeed, pupd)`.
pub open spec fn port_configured(
    old_port: GPIOTypeDef,
    new_port: GPIOTypeDef,
    pins: u32,
    mode: u32,
    otype: u32,
    ospeed: u32,
    pupd: u32,
) -> bool {
    &&& new_port.moder == fold_field(old_port.moder, pins, 2, 3, mode, 16)
    &&& new_port.pupdr == fold_field(old_port.pupdr, pins, 2, 3, pupd, 16)
    &&& new_port.ospeedr == (if drives_output(mode) {
        fold_field(old_port.ospeedr, pins, 2, 3, ospeed, 16)
    } else {
        old_port.ospeedr
    })
    &&& new_port.otyper == (if drives_output(mode) {
        fold_field(old_port.otyper, pins, 1, 1, otype, 16)
    } else {
        old_port.otyper
    })
    &&& new_port.idr == old_port.idr
    &&& new_port.odr == old_port.odr
    &&& new_port.bsrr == old_port.bsrr
    &&& new_port.lckr == old_port.lckr
    &&& new_port.afr == old_port.afr
}

impl GPIOTypeDef {
    /// Configures every pin whose bit is set in `pinx`: its mode, pull-up or
    /// pull-down, and, for output and alternate-function modes (1 and 2), its
    /// speed and output type. Pins are handled from 0 to 15.
    #[verifier::spinoff_prover]
    pub fn set(&mut self, pinx: u16, mode: u32, otype: u32, ospeed: u32, pupd: u32)
        ensures
            port_configured(*old(self), *final(self), pinx as u32, mode, otype, ospeed, pupd),
            mode <= 3 ==> forall|q: u32| q < 16 ==> #[trigger] pin_field(final(self).moder, 2, 3, q)
                == if pin_selected(pinx as u32, q) { mode } else { pin_field(old(self).moder, 2, 3, q) },
            pupd <= 3 ==> forall|q: u32| q < 16 ==> #[trigger] pin_field(final(self).pupdr, 2, 3, q)
                == if pin_selected(pinx as u32, q) { pupd } else { pin_field(old(self).pupdr, 2, 3, q) },
            drives_output(mode) && ospeed <= 3 ==> forall|q: u32| q < 16 ==> #[trigger] pin_field(final(self).ospeedr, 2, 3, q)
                == if pin_selected(pinx as u32, q) { ospeed } else { pin_field(old(self).ospeedr, 2, 3, q) },
            drives_output(mode) && otype <= 1 ==> forall|q: u32| q < 16 ==> #[trigger] pin_field(final(self).otyper, 1, 1, q)
                == if pin_selected(pinx as u32, q) { otype } else { pin_field(old(self).otyper, 1, 1, q) },
    {
        let pins: u32 = pinx as u32;
        let ghost start = *self;
        let mut pinpos: u32 = 0;
        while pinpos < 16
            invariant
                pinpos <= 16,
                pins == pinx as u32,
                self.moder == fold_field(start.moder, pins, 2, 3, mode, pinpos as nat),
                self.pupdr == fold_field(start.pupdr, pins, 2, 3, pupd, pinpos as nat),
                self.ospeedr == (if drives_output(mode) {
                    fold_field(start.ospeedr, pins, 2, 3, ospeed, pinpos as nat)
                } else {
                    start.ospeedr
                }),
                self.otyper == (if drives_output(mode) {
                    fold_field(start.otyper, pins, 1, 1, otype, pinpos as nat)
                } else {
                    start.otyper
                }),
                self.idr == start.idr,
                self.odr == start.odr,
                self.bsrr == start.bsrr,
                self.lckr == start.lckr,
                self.afr == start.afr,
            decreases 16 - pinpos,
        {
            let pos: u32 = 1u32 << pinpos;
            let curpin: u32 = pins & pos;
            if curpin == pos {
                let shift: u32 = pinpos * 2;
                self.moder = (self.moder & !(3u32 << shift)) | (mode << shift);
                if (mode == 1) || (mode == 2) {
                    self.ospeedr = (self.ospeedr & !(3u32 << shift)) | (ospeed << shift);
                    self.otyper = (self.otyper & !(1u32 << pinpos)) | (otype << pinpos);
                }
                self.pupdr = (self.pupdr & !(3u32 << shift)) | (pupd << shift);
            }
            proof {
                assert((pinpos * 1) as u32 == pinpos);
            }
            pinpos = pinpos + 1;
        }
        proof {
            if mode <= 3 {
                lemma_fold_field_pins(start.moder, pins, 2, 3, mode, 16);
            }
            if pupd <= 3 {
                lemma_fold_field_pins(start.pupdr, pins, 2, 3, pupd, 16);
            }
            if ospeed <= 3 {
                lemma_fold_field_pins(start.ospeedr, pins, 2, 3, ospeed, 16);
            }
            if otype <= 1 {
                lemma_fold_field_pins(start.otyper, pins, 1, 1, otype, 16);
            }
        }
    }

    /// Drives the pins of mask `pinx` high (`status`) or low, through BSRR.
    pub fn pin_set(&mut self, pinx: u32, status: bool)
        ensures
            final(self).bsrr == (if status {
                old(self).bsrr | pinx
            } else {
                old(self).bsrr | (pinx << 16u32)
            }),
            (GPIOTypeDef { bsrr: old(self).bsrr, ..*final(self) }) == *old(self),
    {
        if status {
            self.bsrr = self.bsrr | pinx;
        } else {
            self.bsrr = self.bsrr | (pinx << 16u32);
        }
    }

    /// Selects alternate function `afx` for every pin whose bit is set in `pinx`.
    pub fn af_set(&mut self, pinx: u32, afx: u32)
        ensures
            final(self).afr@[0] == fold_af(old(self).afr@[0], pinx, afx, 0, 16),
            final(self).afr@[1] == fold_af(old(self).afr@[1], pinx, afx, 1, 16),
            (GPIOTypeDef { afr: old(self).afr, ..*final(self) }) == *old(self),
            afx <= 15 ==> forall|q: u32| q < 16 ==> #[trigger] af_field(final(self).afr@[(q / 8) as int], q)
                == if pin_selected(pinx, q) { afx } else { af_field(old(self).afr@[(q / 8) as int], q) },
    {
        let ghost start = *self;
        let mut pinpos: u32 = 0;
        while pinpos < 16
            invariant
                pinpos <= 16,
                self.afr@[0] == fold_af(start.afr@[0], pinx, afx, 0, pinpos as nat),
                self.afr@[1] == fold_af(start.afr@[1], pinx, afx, 1, pinpos as nat),
                (GPIOTypeDef { afr: start.afr, ..*self }) == start,
            decreases 16 - pinpos,
        {
            let pos: u32 = 1u32 << pinpos;
            let curpin: u32 = pinx & pos;
            if curpin == pos {
                let idx: usize = (pinpos / 8) as usize;
                let shift: u32 = (pinpos % 8) * 4;
                let cur: u32 = self.afr[idx];
                self.afr[idx] = (cur & !(0x0Fu32 << shift)) | (afx << shift);
            }
            pinpos = pinpos + 1;
        }
        proof {
            if afx <= 15 {
                lemma_fold_af_pins(start.afr@[0], pinx, afx, 0, 16);
                lemma_fold_af_pins(start.afr@[1], pinx, afx, 1, 16);
                assert forall|q: u32| q < 16 implies #[trigger] af_field(self.afr@[(q / 8) as int], q)
                    == if pin_selected(pinx, q) { afx } else { af_field(start.afr@[(q / 8) as int], q) } by {
                    if q < 8 {
                        assert(q / 8 == 0);
                    } else {
                        assert(q / 8 == 1);
                    }
                }
            }
        }
    }
}

/// Configures the pins of mask `pinx` of port `p_gpiox`; see `GPIOTypeDef::set`.
pub fn sys_gpio_set(p_gpiox: &mut GPIOTypeDef, pinx: u16, mode: u32, otype: u32, ospeed: u32, pupd: u32)
    ensures
        port_configured(*old(p_gpiox), *final(p_gpiox), pinx as u32, mode, otype, ospeed, pupd),
{
    p_gpiox.set(pinx, mode, otype, ospeed, pupd);
}

/// Drives the pins of mask `pinx` of port `p_gpiox`; see `GPIOTypeDef::pin_set`.
pub fn sys_gpio_pin_set(p_gpiox: &mut GPIOTypeDef, pinx: u32, status: bool)
    ensures
        final(p_gpiox).bsrr == (if status {
            old(p_gpiox).bsrr | pinx
        } else {
            old(p_gpiox).bsrr | (pinx << 16u32)
        }),
        (GPIOTypeDef { bsrr: old(p_gpiox).bsrr, ..*final(p_gpiox) }) == *old(p_gpiox),
{
    p_gpiox.pin_set(pinx, status);
}

/// Value of the decimal digits `s[3..k]`, each byte standing for its
/// distance from `'0'`.
pub open spec fn digits_value(s: Seq<u8>, k: nat) -> int
    decreases k,
{
    if k <= 3 {
        0
    } else {
        10 * digits_value(s, (k - 1) as nat) + (s[k - 1] - 48)
    }
}

/// Whether `s` names a pin in the form `P<port>.<number>` (the first three
/// bytes are checked).
pub open spec fn pin_name_tagged(s: Seq<u8>) -> bool {
    s[0] == 80u8 && s[2] == 46u8
}

/// Whether the pin name `s` can be read without fault: it has three bytes at
/// least and, when tagged, the bytes after the dot are at least `'0'` and
/// their decimal value fits in a `usize`.
pub open spec fn pin_name_readable(s: Seq<u8>) -> bool {
    &&& s.len() >= 3
    &&& pin_name_tagged(s) ==> {
        &&& forall|i: int| 3 <= i < s.len() ==> #[trigger] s[i] >= 48u8
        &&& digits_value(s, s.len()) <= usize::MAX
    }
}

/// The pin number that the name `s` stands for: port letter A-Z (other bytes
/// count as port 0) and pin digits, each reduced to four bits; 0 for names
/// without the `P` and the dot.
pub open spec fn pin_name_number(s: Seq<u8>) -> int {
    if !pin_name_tagged(s) {
        0
    } else {
        let port: int = if 65 <= s[1] <= 90 {
            s[1] - 65
        } else {
            0
        };
        (port % 16) * 16 + digits_value(s, s.len()) % 16
    }
}

/// Digit values are never negative.
proof fn lemma_digits_nonneg(s: Seq<u8>, k: nat)
    requires
        k <= s.len(),
        forall|i: int| 3 <= i < s.len() ==> #[trigger] s[i] >= 48u8,
    ensures
        0 <= digits_value(s, k),
    decreases k,
{
    if k > 3 {
        lemma_digits_nonneg(s, (k - 1) as nat);
        assert(s[k - 1] >= 48u8);
    }
}

/// Digit values never decrease as more digits are read.
proof fn lemma_digits_monotone(s: Seq<u8>, j: nat, k: nat)
    requires
        j <= k <= s.len(),
        forall|i: int| 3 <= i < s.len() ==> #[trigger] s[i] >= 48u8,
    ensures
        digits_value(s, j) <= digits_value(s, k),
    decreases k,
{
    if k > j {
        lemma_digits_monotone(s, j, (k - 1) as nat);
        lemma_digits_nonneg(s, (k - 1) as nat);
        if k > 3 {
            assert(s[k - 1] >= 48u8);
        }
    }
}

/// Reads a pin name such as "PF.11" (port F, pin 11) into a pin number;
/// `None` where the name cannot be read (see `pin_name_readable`).
#[verifier::spinoff_prover]
pub fn parse_pin_name(name: &str) -> (r: Option<usize>)
    ensures
        r is Some <==> pin_name_readable(name.spec_bytes()),
        r matches Some(n) ==> n == pin_name_number(name.spec_bytes()),
{
    let bytes = name.as_bytes();
    let ghost s = name.spec_bytes();
    let len: usize = bytes.len();
    if len < 3 {
        return None;
    }
    let b0: u8 = bytes[0];
    let b1: u8 = bytes[1];
    let b2: u8 = bytes[2];
    if b0 != 80u8 || b2 != 46u8 {
        return Some(0);
    }
    let mut port_num: usize = 0;
    if (b1 >= 65u8) && (b1 <= 90u8) {
        port_num = (b1 - 65u8) as usize;
    }
    let mut pin_num: usize = 0;
    let mut i: usize = 3;
    while i < len
        invariant
            3 <= i <= len,
            len == s.len(),
            s == name.spec_bytes(),
            bytes@ == s,
            pin_name_tagged(s),
            forall|j: int| 3 <= j < i ==> #[trigger] s[j] >= 48u8,
            pin_num == digits_value(s, i as nat),
        decreases len - i,
    {
        let b: u8 = bytes[i];
        if b < 48u8 {
            proof {
                assert(s[i as int] < 48u8);
            }
            return None;
        }
        let digit: usize = (b - 48u8) as usize;
        let tens = pin_num.checked_mul(10);
        match tens {
            None => {
                proof {
                    assert(digits_value(s, (i + 1) as nat) > usize::MAX);
                    if forall|j: int| 3 <= j < s.len() ==> #[trigger] s[j] >= 48u8 {
                        lemma_digits_monotone(s, (i + 1) as nat, s.len());
                    }
                }
                return None;
            },
            Some(t) => {
                let next = t.checked_add(digit);
                match next {
                    None => {
                        proof {
                            assert(digits_value(s, (i + 1) as nat) > usize::MAX);
                            if forall|j: int| 3 <= j < s.len() ==> #[trigger] s[j] >= 48u8 {
                                lemma_digits_monotone(s, (i + 1) as nat, s.len());
                            }
                        }
                        return None;
                    },
                    Some(v) => {
                        pin_num = v;
                    },
                }
            },
        }
        i = i + 1;
    }
    Some(StmPin::num(port_num, pin_num))
}

/// The mode, output type and pull setting that a pin mode code selects:
/// 0 push-pull output, 1 floating input, 2 input with pull-up, 3 input with
/// pull-down, 4 open-drain output; other codes act as 0.
pub open spec fn stm_mode_settings(mode: u8) -> (u32, u32, u32) {
    if mode == 1 {
        (0, 0, 0)
    } else if mode == 2 {
        (0, 0, 1)
    } else if mode == 3 {
        (0, 0, 2)
    } else if mode == 4 {
        (1, 1, 0)
    } else {
        (1, 0, 0)
    }
}

/// The pins of the board: GPIO ports A, B, C, ... in order, and (for
/// proofs) the requests served so far.
pub struct StmPin {
    pub ports: Vec<GPIOTypeDef>,
    served: Ghost<Seq<PinRequest>>,
}

impl StmPin {
    /// The port registers, port A first.
    pub closed spec fn port_regs(&self) -> Seq<GPIOTypeDef> {
        self.ports@
    }

    /// The controller of the ports `ports`, with no request served yet.
    pub fn new(ports: Vec<GPIOTypeDef>) -> (p: Self)
        ensures
            p.port_regs() == ports@,
            p.requests() == Seq::<PinRequest>::empty(),
    {
        StmPin { ports, served: Ghost(Seq::empty()) }
    }

    /// The number of pin `no` of port `port` (four bits each).
    pub fn num(port: usize, no: usize) -> (n: usize)
        ensures
            n == (port % 16) * 16 + no % 16,
    {
        assert((((port & 0xF) << 4usize) | (no & 0xF)) == (port % 16) * 16 + no % 16) by (bit_vector);
        ((port & 0xF) << 4usize) | (no & 0xF)
    }

    /// The port of pin number `pin`.
    pub fn port(pin: usize) -> (p: u8)
        ensures
            p == (pin / 16) % 16,
    {
        assert(((pin >> 4usize) & 0xF) == (pin / 16) % 16) by (bit_vector);
        ((pin >> 4usize) & 0xF) as u8
    }

    /// The position of pin number `pin` within its port.
    pub fn no(pin: usize) -> (n: u8)
        ensures
            n == pin % 16,
    {
        assert((pin & 0xF) == pin % 16) by (bit_vector);
        (pin & 0xF) as u8
    }

    /// The bit of pin number `pin` in its port's registers.
    pub fn st_pin(pin: usize) -> (m: u16)
        ensures
            m == 1u16 << ((pin % 16) as u16),
    {
        let n: u8 = Self::no(pin);
        1u16 << (n as u16)
    }
}

/// Numbering a pin and taking its port and position back gives what went in.
pub proof fn lemma_pin_number_roundtrip(port: usize, no: usize)
    requires
        port < 16,
        no < 16,
    ensures
        ((port * 16 + no) / 16) % 16 == port,
        (port * 16 + no) % 16 == no,
{
}

impl PinOps for StmPin {
    closed spec fn requests(&self) -> Seq<PinRequest> {
        self.served@
    }

    /// Configures pin `pin` per `mode` (see `stm_mode_settings`) at the highest
    /// speed; pins of ports the board lacks are left alone.
    fn pin_mode(&mut self, pin: usize, mode: PinMode)
        ensures
            ({
                let p = ((pin / 16) % 16) as int;
                let (m, otype, pupd) = stm_mode_settings(pin_mode_code(mode) as u8);
                if p < old(self).port_regs().len() {
                    &&& final(self).port_regs().len() == old(self).port_regs().len()
                    &&& port_configured(old(self).port_regs()[p], final(self).port_regs()[p],
                        (1u16 << ((pin % 16) as u16)) as u32, m, otype, 3, pupd)
                    &&& forall|q: int| 0 <= q < old(self).port_regs().len() && q != p
                        ==> final(self).port_regs()[q] == old(self).port_regs()[q]
                } else {
                    final(self).port_regs() == old(self).port_regs()
                }
            }),
    {
        let port: usize = Self::port(pin) as usize;
        let gpio_pin: u16 = Self::st_pin(pin);
        let code: usize = usize::from(mode);
        let mut m: u32 = 1;
        let mut otype: u32 = 0;
        let ospeed: u32 = 3;
        let mut pupd: u32 = 0;
        match code {
            0 => {
                m = 1;
                otype = 0;
                pupd = 0;
            },
            1 => {
                m = 0;
                pupd = 0;
            },
            2 => {
                m = 0;
                pupd = 1;
            },
            3 => {
                m = 0;
                pupd = 2;
            },
            4 => {
                m = 1;
                otype = 1;
                pupd = 0;
            },
            _ => {},
        }
        if port < self.ports.len() {
            self.ports[port].set(gpio_pin, m, otype, ospeed, pupd);
        }
        proof {
            self.served@ = self.served@.push(PinRequest::Mode(pin, mode));
        }
    }

    /// Drives pin `pin` to `value`; pins of ports the board lacks are left alone.
    fn pin_write(&mut self, pin: usize, value: PinState)
        ensures
            ({
                let p = ((pin / 16) % 16) as int;
                let mask = (1u16 << ((pin % 16) as u16)) as u32;
                if p < old(self).port_regs().len() {
                    &&& final(self).port_regs() == old(self).port_regs().update(p, GPIOTypeDef {
                        bsrr: if value == PinState::HIGH {
                            old(self).port_regs()[p].bsrr | mask
                        } else {
                            old(self).port_regs()[p].bsrr | (mask << 16u32)
                        },
                        ..old(self).port_regs()[p]
                    })
                } else {
                    final(self).port_regs() == old(self).port_regs()
                }
            }),
    {
        let port: usize = Self::port(pin) as usize;
        let gpio_pin: u32 = Self::st_pin(pin) as u32;
        if port < self.ports.len() {
            self.ports[port].pin_set(gpio_pin, value == PinState::HIGH);
        }
        proof {
            self.served@ = self.served@.push(PinRequest::Write(pin, value));
        }
    }

    /// The level of pin `pin` in its port's input register; LOW for ports the
    /// board lacks.
    fn pin_read(&mut self, pin: usize) -> (s: PinState)
        ensures
            final(self).port_regs() == old(self).port_regs(),
            ({
                let p = ((pin / 16) % 16) as int;
                let mask = (1u16 << ((pin % 16) as u16)) as u32;
                s == (if p < old(self).port_regs().len() && old(self).port_regs()[p].idr & mask > 0 {
                    PinState::HIGH
                } else {
                    PinState::LOW
                })
            }),
    {
        let port: usize = Self::port(pin) as usize;
        let gpio_pin: u32 = Self::st_pin(pin) as u32;
        let mut level = PinState::LOW;
        if port < self.ports.len() {
            if self.ports[port].idr & gpio_pin > 0 {
                level = PinState::HIGH;
            }
        }
        proof {
            self.served@ = self.served@.push(PinRequest::Read(pin, level));
        }
        level
    }

    /// Pin interrupts are not supported by this controller.
    fn pin_detach_irq(&mut self, pin: usize)
        ensures
            final(self).port_regs() == old(self).port_regs(),
    {
        proof {
            self.served@ = self.served@.push(PinRequest::DetachIrq(pin));
        }
    }

    /// Pin interrupts are not supported by this controller.
    fn pin_irq_enable(&mut self, pin: usize, enabled: u8)
        ensures
            final(self).port_regs() == old(self).port_regs(),
    {
        proof {
            self.served@ = self.served@.push(PinRequest::IrqEnable(pin, enabled));
        }
    }

    /// The number of the pin named `name`; 0 where the name cannot be read.
    fn pin_get(&mut self, name: &str) -> (n: usize)
        ensures
            final(self).port_regs() == old(self).port_regs(),
            n == (if pin_name_readable(name.spec_bytes()) {
                pin_name_number(name.spec_bytes())
            } else {
                0
            }),
    {
        let n: usize = match parse_pin_name(name) {
            Some(n) => n,
            None => 0,
        };
        proof {
            self.served@ = self.served@.push(PinRequest::Lookup(name@, n));
        }
        n
    }
}

/// What each pin mode selects: the two outputs are general-purpose outputs
/// (mode 01) and the inputs mode 00; the open-drain output alone has output
/// type 1; the pull-up input pulls up (01), the pull-down input pulls down
/// (10), the others float.
pub proof fn lemma_mode_settings(mode: PinMode)
    ensures
        stm_mode_settings(pin_mode_code(mode) as u8).0 == (if mode == PinMode::OUTPUT || mode == PinMode::OutputOd {
            1u32
        } else {
            0u32
        }),
        stm_mode_settings(pin_mode_code(mode) as u8).1 == (if mode == PinMode::OutputOd {
            1u32
        } else {
            0u32
        }),
        stm_mode_settings(pin_mode_code(mode) as u8).2 == (if mode == PinMode::InputPullup {
            1u32
        } else if mode == PinMode::InputPulldown {
            2u32
        } else {
            0u32
        }),
{
}

} // verus!
verus! {

/// The field of `width` bits (mask `mask`) of pin `p` in `reg`.
pub open spec fn pin_field(reg: u32, width: u32, mask: u32, p: u32) -> u32 {
    (reg >> (p * width)) & mask
}

proof fn lemma_set_field_fields(x: u32, p: u32, q: u32, w: u32, m: u32, v: u32)
    requires
        p < 16,
        q < 16,
        w == 1 && m == 1 || w == 2 && m == 3,
        v <= m,
    ensures
        pin_field(set_field(x, (p * w) as u32, m, v), w, m, q) == if p == q { v } else { pin_field(x, w, m, q) },
{
    assert(p * w < 32 && q * w < 32) by (nonlinear_arith)
        requires p < 16, q < 16, w <= 2;
    let ps = (p * w) as u32;
    let qs = (q * w) as u32;
    assert(ps == p * w && qs == q * w);
    if p == q {
        assert((((x & !(m << ps)) | (v << ps)) >> ps) & m == v) by (bit_vector)
            requires ps < 32, v <= m, m == 1 || m == 3, m == 3 ==> ps <= 30;
    } else {
        assert(ps + w <= qs || qs + w <= ps) by (nonlinear_arith)
            requires p != q, ps == p * w, qs == q * w, w >= 1;
        assert((((x & !(m << ps)) | (v << ps)) >> qs) & m == (x >> qs) & m) by (bit_vector)
            requires ps < 32, qs < 32, v <= m, (m == 1 && w == 1) || (m == 3 && w == 2),
                ps + w <= qs || qs + w <= ps;
    }
}


/// Writing a value that fits a pin's field into the fields of the selected
/// pins among `0..k` leaves each of those fields holding the value and every
/// other pin's field as it was.
pub proof fn lemma_fold_field_pins(reg: u32, pins: u32, width: u32, mask: u32, val: u32, k: nat)
    requires
        k <= 16,
        width == 1 && mask == 1 || width == 2 && mask == 3,
        val <= mask,
    ensures
        forall|q: u32| q < 16 ==> #[trigger] pin_field(fold_field(reg, pins, width, mask, val, k), width, mask, q)
            == if q < k && pin_selected(pins, q) { val } else { pin_field(reg, width, mask, q) },
    decreases k,
{
    if k > 0 {
        lemma_fold_field_pins(reg, pins, width, mask, val, (k - 1) as nat);
        let prev = fold_field(reg, pins, width, mask, val, (k - 1) as nat);
        let p = (k - 1) as u32;
        assert forall|q: u32| q < 16 implies #[trigger] pin_field(fold_field(reg, pins, width, mask, val, k), width, mask, q)
            == if q < k && pin_selected(pins, q) { val } else { pin_field(reg, width, mask, q) } by {
            if pin_selected(pins, p) {
                lemma_set_field_fields(prev, p, q, width, mask, val);
            }
        }
    }
}


/// The 4-bit alternate-function field of pin `q` in its AFR word `reg`.
pub open spec fn af_field(reg: u32, q: u32) -> u32 {
    (reg >> ((q % 8) * 4)) & 0x0F
}

proof fn lemma_set_af_fields(x: u32, p: u32, q: u32, v: u32)
    requires
        p < 8,
        q < 8,
        v <= 15,
    ensures
        ((set_field(x, (p * 4) as u32, 0x0Fu32, v) >> (q * 4)) & 0x0F) == if p == q { v } else { (x >> (q * 4)) & 0x0F },
{
    let ps = (p * 4) as u32;
    let qs = (q * 4) as u32;
    if p == q {
        assert((((x & !(0x0Fu32 << ps)) | (v << ps)) >> ps) & 0x0F == v) by (bit_vector)
            requires ps <= 28, v <= 15;
    } else {
        assert(ps + 4 <= qs || qs + 4 <= ps);
        assert((((x & !(0x0Fu32 << ps)) | (v << ps)) >> qs) & 0x0F == (x >> qs) & 0x0F) by (bit_vector)
            requires ps <= 28, qs <= 28, v <= 15, ps + 4 <= qs || qs + 4 <= ps;
    }
}

/// Writing a 4-bit function into the AFR word `half` for the selected pins
/// among `0..k` leaves the field of each such pin of that word holding it
/// and every other field of the word as it was.
pub proof fn lemma_fold_af_pins(reg: u32, pins: u32, afx: u32, half: u32, k: nat)
    requires
        k <= 16,
        half <= 1,
        afx <= 15,
    ensures
        forall|q: u32| q < 16 && q / 8 == half ==> #[trigger] af_field(fold_af(reg, pins, afx, half, k), q)
            == if q < k && pin_selected(pins, q) { afx } else { af_field(reg, q) },
    decreases k,
{
    if k > 0 {
        lemma_fold_af_pins(reg, pins, afx, half, (k - 1) as nat);
        let prev = fold_af(reg, pins, afx, half, (k - 1) as nat);
        let p = (k - 1) as u32;
        assert forall|q: u32| q < 16 && q / 8 == half implies #[trigger] af_field(fold_af(reg, pins, afx, half, k), q)
            == if q < k && pin_selected(pins, q) { afx } else { af_field(reg, q) } by {
            if p / 8 == half && pin_selected(pins, p) {
                lemma_set_af_fields(prev, p % 8, q % 8, afx);
                assert(p == 8 * half + p % 8);
                assert(q == 8 * half + q % 8);
                assert((p % 8 == q % 8) <==> (p == q));
                assert(((p % 8) * 4) as u32 == (p % 8) * 4);
                let np = fold_af(reg, pins, afx, half, k);
                assert(np == set_field(prev, ((p % 8) * 4) as u32, 0x0Fu32, afx));
                assert(af_field(np, q) == ((np >> ((q % 8) * 4)) & 0x0F));
                assert(((set_field(prev, (((p % 8) as u32) * 4) as u32, 0x0Fu32, afx) >> (((q % 8) as u32) * 4)) & 0x0F)
                    == if p % 8 == q % 8 { afx } else { (prev >> (((q % 8) as u32) * 4)) & 0x0F });
                assert(af_field(prev, q) == (prev >> (((q % 8) as u32) * 4)) & 0x0F);
                assert(af_field(np, q) == (if p == q { afx } else { af_field(prev, q) }));
                if p != q {
                    assert(q < k <==> q < k - 1);
                }
            } else {
                assert(fold_af(reg, pins, afx, half, k) == prev);
            }
        }
    }
}

}
