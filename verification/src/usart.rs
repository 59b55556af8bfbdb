use vstd::prelude::*;
use crate::board::{NvicType, RccTypeDef, ScbType, aircr_with_group, nvic_priority};
use crate::gpio::{GPIOTypeDef, fold_af, port_configured};

verus! {

/// Whether `c` is a Unicode scalar value, that is a valid `char`.
pub open spec fn is_scalar_value(c: u32) -> bool {
    c < 0xD800 || (0xE000 <= c && c <= 0x10FFFF)
}

/// `char::from_u32` from std: per its documentation it gives the character
/// with code `i` when `i` is a valid `char` (a Unicode scalar value) and
/// `None` otherwise.
pub assume_specification[ char::from_u32 ](i: u32) -> (r: Option<char>)
    ensures
        r is Some <==> is_scalar_value(i),
        r matches Some(c) ==> c as u32 == i,
;

/// USART registers.
pub struct UsartTypeDef {
    /// Status register: bit 5 RXNE (a byte was received), bit 6 TC (sending done).
    pub sr: u32,
    /// Data register.
    pub dr: u32,
    /// Baud rate register.
    pub brr: u32,
    pub cr1: u32,
    pub cr2: u32,
    pub cr3: u32,
    pub gtpr: u32,
}

/// Status bit: a received byte waits in the data register.
pub const USART_SR_RXNE: u32 = 0x20;
/// Status bit: the last transmission is complete.
pub const USART_SR_TC: u32 = 0x40;

/// The baud rate divisor for an 84 MHz clock at 115200 baud, rounded to nearest.
pub const USART_BRR_115200: u32 = 729;

impl UsartTypeDef {
    /// Sends `ch` and waits until the transmission is complete.
    pub fn putc(&mut self, ch: char)
        requires
            old(self).sr & USART_SR_TC != 0,
        ensures
            final(self).dr == ch as u32,
            (UsartTypeDef { dr: old(self).dr, ..*final(self) }) == *old(self),
    {
        self.dr = ch as u32;
        while (self.sr & USART_SR_TC) == 0
            invariant
                self.sr & USART_SR_TC != 0,
            decreases 0nat,
        {
        }
    }

    /// The received character, if a byte is waiting and the data register holds
    /// a valid character.
    pub fn getc(&mut self) -> (c: Option<char>)
        ensures
            *final(self) == *old(self),
            c is Some <==> (old(self).sr & USART_SR_RXNE != 0 && is_scalar_value(old(self).dr)),
            c matches Some(ch) ==> ch as u32 == old(self).dr,
    {
        if self.sr & USART_SR_RXNE != 0 {
            return char::from_u32(self.dr);
        }
        None
    }

    /// Sets up USART1 at 115200 baud, 8 data bits: enables the clocks of port A
    /// and of the USART, puts PA9 (TX) and PA10 (RX) into alternate function 7,
    /// enables sending, receiving and the receive interrupt, gives interrupt
    /// line 37 priority 3/3 in group 2, and enables the USART.
    pub fn usart_init(
        &mut self,
        rcc: &mut RccTypeDef,
        gpioa: &mut GPIOTypeDef,
        nvic: &mut NvicType,
        scb: &mut ScbType,
    )
        ensures
            final(self).brr == USART_BRR_115200,
            final(self).cr1 == 0x202C,
            (UsartTypeDef { brr: old(self).brr, cr1: old(self).cr1, ..*final(self) }) == *old(self),
            final(rcc).ahb1enr == (old(rcc).ahb1enr | 1u32) | 1u32,
            final(rcc).apb2enr == old(rcc).apb2enr | 0x10u32,
            (RccTypeDef { ahb1enr: old(rcc).ahb1enr, apb2enr: old(rcc).apb2enr, ..*final(rcc) })
                == *old(rcc),
            exists|g1: GPIOTypeDef, g2: GPIOTypeDef|
                {
                    &&& port_configured(*old(gpioa), g1, 0x200, 2, 0, 1, 1)
                    &&& port_configured(g1, g2, 0x400, 2, 0, 1, 1)
                    &&& final(gpioa).afr@[0] == fold_af(fold_af(g2.afr@[0], 0x200, 7, 0, 16), 0x400, 7, 0, 16)
                    &&& final(gpioa).afr@[1] == fold_af(fold_af(g2.afr@[1], 0x200, 7, 1, 16), 0x400, 7, 1, 16)
                    &&& (GPIOTypeDef { afr: g2.afr, ..*final(gpioa) }) == g2
                },
            final(scb).aircr == aircr_with_group(old(scb).aircr, 2),
            (ScbType { aircr: old(scb).aircr, ..*final(scb) }) == *old(scb),
            final(nvic).iser@ == old(nvic).iser@.update(1, old(nvic).iser@[1] | 0x20u32),
            final(nvic).ip@ == old(nvic).ip@.update(
                37,
                old(nvic).ip@[37] | ((nvic_priority(3, 3, 2) << 4u32) as u8),
            ),
            final(nvic).icer == old(nvic).icer,
            final(nvic).ispr == old(nvic).ispr,
            final(nvic).icpr == old(nvic).icpr,
            final(nvic).iabr == old(nvic).iabr,
            final(nvic).stir == old(nvic).stir,
    {
        let sclk: u32 = 84;
        let baudrate: u32 = 115200;

        rcc.ahb1enr_0();
        rcc.ahb2enr_4();

        let ghost g0 = *gpioa;
        gpioa.set(0x200, 2, 0, 1, 1);
        let ghost g1 = *gpioa;
        gpioa.set(0x400, 2, 0, 1, 1);
        let ghost g2 = *gpioa;

        gpioa.af_set(0x200, 7);
        gpioa.af_set(0x400, 7);

        let temp: u32 = (sclk * 1000000 + baudrate / 2) / baudrate;
        self.brr = temp;
        self.cr1 = 0;
        self.cr1 = self.cr1 | 0u32;
        self.cr1 = self.cr1 | 0u32;
        self.cr1 = self.cr1 | 8u32;
        self.cr1 = self.cr1 | 4u32;
        self.cr1 = self.cr1 | 0x20u32;
        nvic.nvic_init(scb, 3, 3, 37, 2);
        self.cr1 = self.cr1 | 0x2000u32;
        proof {
            assert(((((((0u32 | 0u32) | 0u32) | 8u32) | 4u32) | 0x20u32) | 0x2000u32) == 0x202Cu32)
                by (bit_vector);
            assert((1u32 << ((37u8 % 32) as u32)) == 0x20u32) by (bit_vector);
            assert(port_configured(g0, g1, 0x200, 2, 0, 1, 1));
            assert(port_configured(g1, g2, 0x400, 2, 0, 1, 1));
        }
    }
}

} // verus!
