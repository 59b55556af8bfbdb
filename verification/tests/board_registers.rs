use kernel::board::{FlashTypeDef, NvicType, PwrTypeDef, RccTypeDef, ScbType, SysTickType};
use kernel::gpio::{parse_pin_name, sys_gpio_pin_set, sys_gpio_set, GPIOTypeDef, StmPin};
use kernel::pin::{PinMode, PinOps, PinState};
use kernel::usart::UsartTypeDef;
use kernel::watchdog::{DeviceWatchDogCTRL, IWDGTypeDef, StmWdg};

fn rcc(cr: u32, cfgr: u32) -> RccTypeDef {
    RccTypeDef {
        cr,
        pllcfgr: 0,
        cfgr,
        cir: 0,
        ahb1rstr: 0,
        ahb2rstr: 0,
        ahb3rstr: 0,
        apb1rstr: 0,
        apb2rstr: 0,
        ahb1enr: 0,
        ahb2enr: 0,
        ahb3enr: 0,
        apb1enr: 0,
        apb2enr: 0,
        ahb1lpenr: 0,
        ahb2lpenr: 0,
        ahb3lpenr: 0,
        apb1lpenr: 0,
        apb2lpenr: 0,
        bdcr: 0,
        csr: 0,
        sscgr: 0,
        plli2scfgr: 0,
    }
}

fn flash() -> FlashTypeDef {
    FlashTypeDef { acr: 0, keyr: 0, optkeyr: 0, sr: 0, cr: 0, optcr: 0, optcr1: 0 }
}

fn pwr() -> PwrTypeDef {
    PwrTypeDef { cr: 0, csr: 0 }
}

fn nvic() -> NvicType {
    NvicType { iser: [0; 8], icer: [0; 8], ispr: [0; 8], icpr: [0; 8], iabr: [0; 8], ip: [0; 240], stir: 0 }
}

fn scb() -> ScbType {
    ScbType {
        cpuid: 0,
        icsr: 0,
        vtor: 0,
        aircr: 0,
        scr: 0,
        ccr: 0,
        shp: [0; 12],
        shcsr: 0,
        cfsr: 0,
        hfsr: 0,
        dfsr: 0,
        mmfar: 0,
        bfar: 0,
        afsr: 0,
        cpacr: 0,
    }
}

fn port() -> GPIOTypeDef {
    GPIOTypeDef { moder: 0, otyper: 0, ospeedr: 0, pupdr: 0, idr: 0, odr: 0, bsrr: 0, lckr: 0, afr: [0; 2] }
}

#[test]
fn priority_group_goes_to_aircr_with_the_key() {
    let mut s = scb();
    s.aircr = 0xFFFF_FFFF;
    s.nvic_priority_group_config(2);
    assert_eq!(s.aircr, 0x05FA_0000 | 0xF8FF | (5 << 8));
}

#[test]
fn nvic_init_enables_the_line_and_sets_its_priority() {
    let mut n = nvic();
    let mut s = scb();
    n.nvic_init(&mut s, 3, 3, 37, 2);
    assert_eq!(n.iser[1], 1 << 5);
    assert_eq!(n.ip[37], 0xF0);
    assert_eq!(s.aircr, 0x05FA_0500);
    n.nvic_init(&mut s, 1, 0, 0, 4);
    assert_eq!(n.iser[0], 1);
    assert_eq!(n.ip[0], 0x10);
}

#[test]
fn systick_runs_with_interrupt_and_reload() {
    let mut t = SysTickType { ctrl: 0, load: 0, val: 9, valib: 0 };
    t.systick_init();
    assert_eq!(t.ctrl, 7);
    assert_eq!(t.load, 100000);
    assert_eq!(t.val, 9);
}

#[test]
fn clock_enables() {
    let mut r = rcc(0, 0);
    r.ahb1enr_0();
    r.ahb2enr_4();
    assert_eq!(r.ahb1enr, 1);
    assert_eq!(r.apb2enr, 0x10);
}

#[test]
fn sys_clock_set_reports_an_oscillator_that_never_gets_ready() {
    let mut r = rcc(0, 0);
    let mut f = flash();
    let mut p = pwr();
    assert_eq!(r.sys_clock_set(&mut f, &mut p, 336, 8, 2, 7), 1);
    assert_eq!(r.cr, 0x10000);
    assert_eq!(r.pllcfgr, 0);
    assert_eq!(f.acr, 0);
    assert_eq!(p.cr, 0);
}

#[test]
fn sys_clock_set_succeeds_when_everything_reports_ready() {
    let mut r = rcc(0x0202_0000, 0x0C);
    let mut f = flash();
    let mut p = pwr();
    assert_eq!(r.sys_clock_set(&mut f, &mut p, 336, 8, 2, 7), 0);
    assert_eq!(r.pllcfgr, 8 | (336 << 6) | (7 << 24) | (1 << 22));
    assert_eq!(r.cfgr, 0x0C | 0x1400 | 0x8000 | 2);
    assert_eq!(r.cr, 0x0202_0000 | 0x10000 | 0x0100_0000);
    assert_eq!(r.apb1enr, 1 << 28);
    assert_eq!(p.cr, 3 << 14);
    assert_eq!(f.acr, 0x705);
}

#[test]
fn sys_clock_set_reports_a_pll_that_does_not_lock() {
    let mut r = rcc(0x0002_0000, 0x0C);
    let mut f = flash();
    let mut p = pwr();
    assert_eq!(r.sys_clock_set(&mut f, &mut p, 336, 8, 4, 7), 2);
    assert_eq!(r.pllcfgr, 8 | (336 << 6) | (1 << 16) | (7 << 24) | (1 << 22));
}

#[test]
fn sys_clock_set_reports_a_switch_that_does_not_happen() {
    let mut r = rcc(0x0202_0000, 0);
    let mut f = flash();
    let mut p = pwr();
    assert_eq!(r.sys_clock_set(&mut f, &mut p, 336, 8, 2, 7), 4);
    let mut r2 = rcc(0x0002_0000, 0);
    assert_eq!(r2.sys_clock_set(&mut f, &mut p, 336, 8, 2, 7), 4);
}

#[test]
fn clock_init_resets_and_stops_at_the_oscillator() {
    let mut r = rcc(0xFFFF, 0xAB);
    r.cir = 5;
    r.ahb1enr = 3;
    let mut f = flash();
    let mut p = pwr();
    r.clock_init(&mut f, &mut p);
    assert_eq!(r.cr, 0x10001);
    assert_eq!(r.cfgr, 0);
    assert_eq!(r.cir, 0);
    assert_eq!(r.ahb1enr, 3);
}

#[test]
fn gpio_set_configures_each_selected_pin() {
    let mut g = port();
    g.set((1 << 9) | (1 << 10), 2, 0, 1, 1);
    assert_eq!(g.moder, (2 << 18) | (2 << 20));
    assert_eq!(g.ospeedr, (1 << 18) | (1 << 20));
    assert_eq!(g.pupdr, (1 << 18) | (1 << 20));
    assert_eq!(g.otyper, 0);
    let mut h = port();
    h.ospeedr = 0xFF;
    h.set(1, 0, 1, 3, 2);
    assert_eq!(h.moder, 0);
    assert_eq!(h.ospeedr, 0xFF);
    assert_eq!(h.pupdr, 2);
    sys_gpio_set(&mut h, 1, 1, 1, 3, 0);
    assert_eq!(h.moder, 1);
    assert_eq!(h.otyper, 1);
    assert_eq!(h.ospeedr, 0xFF);
    assert_eq!(h.pupdr, 0);
}

#[test]
fn gpio_pin_set_uses_the_set_and_reset_halves() {
    let mut g = port();
    g.pin_set(1 << 3, true);
    assert_eq!(g.bsrr, 1 << 3);
    sys_gpio_pin_set(&mut g, 1 << 4, false);
    assert_eq!(g.bsrr, (1 << 3) | (1 << 20));
}

#[test]
fn gpio_af_set_fills_both_words() {
    let mut g = port();
    g.af_set((1 << 9) | (1 << 2), 7);
    assert_eq!(g.afr[0], 7 << 8);
    assert_eq!(g.afr[1], 7 << 4);
}

#[test]
fn pin_names_parse() {
    assert_eq!(parse_pin_name("PF.11"), Some(91));
    assert_eq!(parse_pin_name("PF.12"), Some(92));
    assert_eq!(parse_pin_name("PA.0"), Some(0));
    assert_eq!(parse_pin_name("PB.17"), Some(17));
    assert_eq!(parse_pin_name("XA.3"), Some(0));
    assert_eq!(parse_pin_name("Pa.3"), Some(3));
    assert_eq!(parse_pin_name("P"), None);
    assert_eq!(parse_pin_name("PA.!"), None);
    assert_eq!(parse_pin_name("PA.99999999999999999999999"), None);
}

#[test]
fn stm_pin_numbering() {
    assert_eq!(StmPin::num(5, 11), 91);
    assert_eq!(StmPin::port(91), 5);
    assert_eq!(StmPin::no(91), 11);
    assert_eq!(StmPin::st_pin(91), 1 << 11);
    assert_eq!(StmPin::num(0x15, 0x13), 0x53);
}

#[test]
fn stm_pin_drives_its_ports() {
    let mut pins = StmPin::new(vec![port(), port()]);
    let p = pins.pin_get("PB.3");
    assert_eq!(p, 19);
    pins.pin_mode(p, PinMode::OUTPUT);
    assert_eq!(pins.ports[1].moder, 1 << 6);
    assert_eq!(pins.ports[1].ospeedr, 3 << 6);
    pins.pin_mode(p, PinMode::InputPullup);
    assert_eq!(pins.ports[1].moder, 0);
    assert_eq!(pins.ports[1].pupdr, 1 << 6);
    pins.pin_write(p, PinState::HIGH);
    assert_eq!(pins.ports[1].bsrr, 1 << 3);
    pins.pin_write(p, PinState::LOW);
    assert_eq!(pins.ports[1].bsrr, (1 << 3) | (1 << 19));
    assert_eq!(pins.pin_read(p), PinState::LOW);
    pins.ports[1].idr = 1 << 3;
    assert_eq!(pins.pin_read(p), PinState::HIGH);
    assert_eq!(pins.pin_read(0x53), PinState::LOW);
    assert_eq!(pins.pin_get("?"), 0);
}

fn usart(sr: u32) -> UsartTypeDef {
    UsartTypeDef { sr, dr: 0, brr: 0, cr1: 0, cr2: 0, cr3: 0, gtpr: 0 }
}

#[test]
fn usart_putc_and_getc() {
    let mut u = usart(0x40);
    u.putc('A');
    assert_eq!(u.dr, 65);
    assert_eq!(u.getc(), None);
    u.sr = 0x60;
    assert_eq!(u.getc(), Some('A'));
    u.dr = 0xD800;
    assert_eq!(u.getc(), None);
}

#[test]
fn usart_init_sets_up_115200_baud() {
    let mut u = usart(0);
    let mut r = rcc(0, 0);
    let mut g = port();
    let mut n = nvic();
    let mut s = scb();
    u.usart_init(&mut r, &mut g, &mut n, &mut s);
    assert_eq!(u.brr, 729);
    assert_eq!(u.cr1, 0x202C);
    assert_eq!(r.ahb1enr, 1);
    assert_eq!(r.apb2enr, 0x10);
    assert_eq!(g.moder, (2 << 18) | (2 << 20));
    assert_eq!(g.afr[1], (7 << 4) | (7 << 8));
    assert_eq!(n.iser[1], 1 << 5);
    assert_eq!(n.ip[37], 0xF0);
}

#[test]
fn watchdog_timeouts() {
    let mut regs = IWDGTypeDef { kr: 0, pr: 0, rlr: 0, sr: 0 };
    let mut w = StmWdg { wdt: &mut regs };
    let mut t: u32 = 8;
    w.control(DeviceWatchDogCTRL::SetTimeout, Some(&mut t));
    let mut back: u32 = 0;
    w.control(DeviceWatchDogCTRL::GetTimeout, Some(&mut back));
    assert_eq!(back, 8);
    w.control(DeviceWatchDogCTRL::Start, None);
    assert_eq!(regs.kr, 0xCCCC);
    assert_eq!(regs.rlr, 1000);
    assert_eq!(regs.pr, 4);
}
