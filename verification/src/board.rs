use vstd::prelude::*;

verus! {

/// Nested vectored interrupt controller registers.
pub struct NvicType {
    /// Interrupt set-enable registers.
    pub iser: [u32; 8],
    /// Interrupt clear-enable registers.
    pub icer: [u32; 8],
    /// Interrupt set-pending registers.
    pub ispr: [u32; 8],
    /// Interrupt clear-pending registers.
    pub icpr: [u32; 8],
    /// Interrupt active-bit registers.
    pub iabr: [u32; 8],
    /// Interrupt priority registers, one byte per interrupt line.
    pub ip: [u8; 240],
    /// Software trigger interrupt register.
    pub stir: u32,
}

/// System control block registers.
pub struct ScbType {
    pub cpuid: u32,
    pub icsr: u32,
    pub vtor: u32,
    /// Application interrupt and reset control register.
    pub aircr: u32,
    pub scr: u32,
    pub ccr: u32,
    pub shp: [u8; 12],
    pub shcsr: u32,
    pub cfsr: u32,
    pub hfsr: u32,
    pub dfsr: u32,
    pub mmfar: u32,
    pub bfar: u32,
    pub afsr: u32,
    pub cpacr: u32,
}

/// The value that `nvic_priority_group_config` writes into AIRCR: the old
/// value with the priority-group field cleared, the write key, and the group.
pub open spec fn aircr_with_group(aircr: u32, group: u8) -> u32 {
    ((aircr & 0x0000F8FFu32) | 0x05FA0000u32) | ((((!group) as u32) & 0x07u32) << 8u32)
}

/// The 4-bit priority that `nvic_init` places in the upper nibble of an IP byte.
pub open spec fn nvic_priority(pprio: u8, sprio: u8, group: u8) -> u32 {
    (((pprio << ((4 - group) as u8)) as u32) | ((sprio as u32) & (0x0fu32 >> group))) & 0xfu32
}

impl ScbType {
    /// Selects the priority grouping `group` (its complement's low three bits
    /// go to AIRCR[10:8], together with the write key).
    pub fn nvic_priority_group_config(&mut self, group: u8)
        ensures
            final(self).aircr == aircr_with_group(old(self).aircr, group),
            (ScbType { aircr: old(self).aircr, ..*final(self) }) == *old(self),
    {
        let mut temp: u32;
        let mut temp1: u32;
        temp1 = (!group as u32) & 0x07;
        temp1 = temp1 << 8u32;
        temp = self.aircr;
        temp = temp & 0x0000F8FF;
        temp = temp | 0x05FA0000;
        temp = temp | temp1;
        self.aircr = temp;
    }
}

impl NvicType {
    /// Enables interrupt line `ch` and gives it preemption priority `pprio` and
    /// sub-priority `sprio` under grouping `group`.
    pub fn nvic_init(&mut self, scb: &mut ScbType, pprio: u8, sprio: u8, ch: u8, group: u8)
        requires
            group <= 4,
            ch < 240,
        ensures
            final(scb).aircr == aircr_with_group(old(scb).aircr, group),
            (ScbType { aircr: old(scb).aircr, ..*final(scb) }) == *old(scb),
            final(self).iser@ == old(self).iser@.update(
                (ch / 32) as int,
                old(self).iser@[(ch / 32) as int] | (1u32 << ((ch % 32) as u32)),
            ),
            final(self).ip@ == old(self).ip@.update(
                ch as int,
                old(self).ip@[ch as int] | ((nvic_priority(pprio, sprio, group) << 4u32) as u8),
            ),
            final(self).icer == old(self).icer,
            final(self).ispr == old(self).ispr,
            final(self).icpr == old(self).icpr,
            final(self).iabr == old(self).iabr,
            final(self).stir == old(self).stir,
    {
        let mut temp: u32;
        scb.nvic_priority_group_config(group);
        temp = (pprio << (4 - group)) as u32;
        temp = temp | (sprio as u32 & (0x0fu32 >> group));
        temp = temp & 0xf;
        let idx: usize = (ch / 32) as usize;
        let bit: u32 = 1u32 << ((ch % 32) as u32);
        let old_en: u32 = self.iser[idx];
        self.iser[idx] = old_en | bit;
        let old_ip: u8 = self.ip[ch as usize];
        self.ip[ch as usize] = old_ip | ((temp << 4u32) as u8);
    }
}

/// SysTick timer registers.
pub struct SysTickType {
    pub ctrl: u32,
    pub load: u32,
    pub val: u32,
    pub valib: u32,
}

impl SysTickType {
    /// Selects the processor clock, enables the counter and its interrupt, and
    /// sets the reload value to 100000.
    pub fn systick_init(&mut self)
        ensures
            final(self).ctrl == ((old(self).ctrl | 4u32) | 1u32) | 2u32,
            final(self).load == 100000,
            final(self).val == old(self).val,
            final(self).valib == old(self).valib,
    {
        self.ctrl = self.ctrl | 4u32;
        self.ctrl = self.ctrl | 1u32;
        self.load = 0x0fffffff;
        self.ctrl = self.ctrl | 2u32;
        self.load = 100000;
    }
}

/// Reset and clock control registers.
pub struct RccTypeDef {
    pub cr: u32,
    pub pllcfgr: u32,
    pub cfgr: u32,
    pub cir: u32,
    pub ahb1rstr: u32,
    pub ahb2rstr: u32,
    pub ahb3rstr: u32,
    pub apb1rstr: u32,
    pub apb2rstr: u32,
    pub ahb1enr: u32,
    pub ahb2enr: u32,
    pub ahb3enr: u32,
    pub apb1enr: u32,
    pub apb2enr: u32,
    pub ahb1lpenr: u32,
    pub ahb2lpenr: u32,
    pub ahb3lpenr: u32,
    pub apb1lpenr: u32,
    pub apb2lpenr: u32,
    pub bdcr: u32,
    pub csr: u32,
    pub sscgr: u32,
    pub plli2scfgr: u32,
}

/// Flash interface registers.
pub struct FlashTypeDef {
    pub acr: u32,
    pub keyr: u32,
    pub optkeyr: u32,
    pub sr: u32,
    pub cr: u32,
    pub optcr: u32,
    pub optcr1: u32,
}

/// Power controller registers.
pub struct PwrTypeDef {
    pub cr: u32,
    pub csr: u32,
}

/// HSEON: the external oscillator is switched on.
pub const RCC_CR_HSEON: u32 = 0x10000;
/// HSERDY: the external oscillator is ready.
pub const RCC_CR_HSERDY: u32 = 0x20000;
/// PLLON: the main PLL is switched on.
pub const RCC_CR_PLLON: u32 = 0x1000000;
/// PLLRDY: the main PLL is locked.
pub const RCC_CR_PLLRDY: u32 = 0x2000000;

/// PLLCFGR after `sys_clock_set` has or-ed in the factors M, N, P, Q and the HSE
/// source bit.
pub open spec fn pll_config(pllcfgr: u32, plln: u32, pllm: u32, pllp: u32, pllq: u32) -> u32 {
    ((((pllcfgr | (0x3Fu32 & pllm)) | (plln << 6u32)) | ((((pllp >> 1u32) - 1) as u32) << 16u32))
        | (pllq << 24u32)) | 0x400000u32
}

/// CFGR after `sys_clock_set` has set the bus prescalers (AHB /1, APB1 /4,
/// APB2 /2) and selected the PLL as the system clock.
pub open spec fn cfgr_pll_selected(cfgr: u32) -> u32 {
    (((cfgr | 0u32) | 0x1400u32) | 0x8000u32) | 2u32
}

/// The SWS field: which clock the switch reports as the system clock.
pub open spec fn sws(cfgr: u32) -> u8 {
    ((cfgr as u8) & 0x0Cu8) >> 2u8
}

/// What `sys_clock_set` reports once the PLL was started: 4 when the clock
/// switch does not report the PLL, else 2 when the PLL did not lock, else 0.
pub open spec fn clock_outcome(cr: u32, cfgr: u32) -> u8 {
    if sws(cfgr) != 3 {
        4
    } else if cr & RCC_CR_PLLRDY == 0 {
        2
    } else {
        0
    }
}

impl RccTypeDef {
    /// Enables the clock of GPIO port A (the pins of the serial port).
    pub fn ahb1enr_0(&mut self)
        ensures
            final(self).ahb1enr == (old(self).ahb1enr | 1u32) | 1u32,
            (RccTypeDef { ahb1enr: old(self).ahb1enr, ..*final(self) }) == *old(self),
    {
        self.ahb1enr = self.ahb1enr | 1u32;
        self.ahb1enr = self.ahb1enr | 1u32;
    }

    /// Enables the clock of USART1.
    pub fn ahb2enr_4(&mut self)
        ensures
            final(self).apb2enr == old(self).apb2enr | 0x10u32,
            (RccTypeDef { apb2enr: old(self).apb2enr, ..*final(self) }) == *old(self),
    {
        self.apb2enr = self.apb2enr | 0x10u32;
    }

    /// Starts the external oscillator and the PLL with factors `plln`, `pllm`,
    /// `pllp`, `pllq` and switches the system clock to the PLL.
    /// Returns 1 when the oscillator does not become ready (nothing else is
    /// changed then), 2 when the PLL does not lock, 4 when the switch does not
    /// take effect, 0 on success.
    #[verifier::spinoff_prover]
    pub fn sys_clock_set(
        &mut self,
        flash: &mut FlashTypeDef,
        pwr: &mut PwrTypeDef,
        plln: u32,
        pllm: u32,
        pllp: u32,
        pllq: u32,
    ) -> (r: u8)
        requires
            pllp >= 2,
        ensures
            ({
                let cr1 = old(self).cr | RCC_CR_HSEON;
                if cr1 & RCC_CR_HSERDY == 0 {
                    &&& r == 1
                    &&& *final(self) == (RccTypeDef { cr: cr1, ..*old(self) })
                    &&& *final(flash) == *old(flash)
                    &&& *final(pwr) == *old(pwr)
                } else {
                    &&& final(self).cr == cr1 | RCC_CR_PLLON
                    &&& final(self).apb1enr == old(self).apb1enr | 0x10000000u32
                    &&& final(self).pllcfgr == pll_config(old(self).pllcfgr, plln, pllm, pllp, pllq)
                    &&& final(self).cfgr == cfgr_pll_selected(old(self).cfgr)
                    &&& *final(self) == (RccTypeDef {
                        cr: final(self).cr,
                        apb1enr: final(self).apb1enr,
                        pllcfgr: final(self).pllcfgr,
                        cfgr: final(self).cfgr,
                        ..*old(self)
                    })
                    &&& final(pwr).cr == old(pwr).cr | 0xC000u32
                    &&& final(pwr).csr == old(pwr).csr
                    &&& final(flash).acr == (((old(flash).acr | 0x100u32) | 0x200u32) | 0x400u32) | 5u32
                    &&& *final(flash) == (FlashTypeDef { acr: final(flash).acr, ..*old(flash) })
                    &&& r == clock_outcome(final(self).cr, final(self).cfgr)
                }
            }),
    {
        let mut retry: u32 = 0;
        let mut retval: u8 = 0;
        let mut swsval: u8 = 0;

        self.cr = self.cr | RCC_CR_HSEON;

        while (self.cr & RCC_CR_HSERDY) == 0 && retry < 0x7FFF
            invariant
                retry <= 0x7FFF,
                (self.cr & RCC_CR_HSERDY) != 0 ==> retry == 0,
            decreases 0x7FFF - retry,
        {
            retry = retry + 1;
        }

        if retry == 0x7FFF {
            retval = 1;
            return retval;
        }

        self.apb1enr = self.apb1enr | 0x10000000u32;
        pwr.cr = pwr.cr | 0xC000u32;

        assert((pllp >> 1u32) >= 1) by (bit_vector)
            requires
                pllp >= 2,
        ;
        self.pllcfgr = self.pllcfgr | (0x3Fu32 & pllm);
        self.pllcfgr = self.pllcfgr | (plln << 6u32);
        self.pllcfgr = self.pllcfgr | (((pllp >> 1u32) - 1) << 16u32);
        self.pllcfgr = self.pllcfgr | (pllq << 24u32);
        self.pllcfgr = self.pllcfgr | 0x400000u32;

        self.cfgr = self.cfgr | 0u32;
        self.cfgr = self.cfgr | 0x1400u32;
        self.cfgr = self.cfgr | 0x8000u32;

        self.cr = self.cr | RCC_CR_PLLON;

        retry = 0;
        while (self.cr & RCC_CR_PLLRDY) == 0
            invariant_except_break
                retry <= 0x1FFFFF,
                retval == 0,
            ensures
                (self.cr & RCC_CR_PLLRDY) != 0 ==> retval == 0,
                (self.cr & RCC_CR_PLLRDY) == 0 ==> retval == 2,
            decreases 0x200000 - retry,
        {
            retry = retry + 1;
            if retry > 0x1FFFFF {
                retval = 2;
                break;
            }
        }

        flash.acr = flash.acr | 0x100u32;
        flash.acr = flash.acr | 0x200u32;
        flash.acr = flash.acr | 0x400u32;
        flash.acr = flash.acr | 5u32;

        self.cfgr = self.cfgr | 2u32;

        let ghost pll_result = retval;
        retry = 0;
        while swsval != 3
            invariant_except_break
                retry <= 0x1FFFFF,
                retry > 0 ==> swsval == sws(self.cfgr),
                retry == 0 ==> swsval == 0,
                retval == pll_result,
            ensures
                sws(self.cfgr) == 3 ==> retval == pll_result,
                sws(self.cfgr) != 3 ==> retval == 4,
            decreases 0x200000 - retry,
        {
            swsval = ((self.cfgr as u8) & 0x0Cu8) >> 2u8;
            retry = retry + 1;
            if retry > 0x1FFFFF {
                retval = 4;
                break;
            }
        }
        retval
    }

    /// Resets the clock configuration to the internal oscillator and then runs
    /// `sys_clock_set` for a 168 MHz system clock (N = 336, M = 8, P = 2, Q = 7).
    pub fn clock_init(&mut self, flash: &mut FlashTypeDef, pwr: &mut PwrTypeDef)
        ensures
            ({
                let base = RccTypeDef { cr: 0x10001, cfgr: 0, pllcfgr: 0, cir: 0, ..*old(self) };
                &&& *final(self) == base
                &&& *final(flash) == *old(flash)
                &&& *final(pwr) == *old(pwr)
            }),
    {
        self.cr = 0x00000001;
        self.cfgr = 0x00000000;
        self.pllcfgr = 0x00000000;
        self.cir = 0x00000000;
        assert((1u32 | RCC_CR_HSEON) & RCC_CR_HSERDY == 0 && (1u32 | RCC_CR_HSEON) == 0x10001) by (bit_vector);
        self.sys_clock_set(flash, pwr, 336, 8, 2, 7);
    }
}

} // verus!
