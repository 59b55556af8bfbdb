pub mod error;
pub mod list;
pub mod config;
pub mod timer;
pub mod object;
pub mod thread;
pub mod bits;
pub mod scheduler;
pub mod irq;
pub mod tick;
pub mod system;
pub mod mem;
pub mod board;
pub mod gpio;
pub mod device;
pub mod pin;
pub mod uart;
pub mod usart;
pub mod watchdog;
pub mod ipc;
pub mod i2c;
pub mod i2c_bit;
pub mod bsp;
pub mod libcpu;
pub mod finsh;
