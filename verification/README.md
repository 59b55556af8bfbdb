# kernel

A small real-time kernel for Cortex-M4 boards, written in Verus: the
executable code carries `requires`/`ensures` contracts that Verus proves.

Layout of `src/`:

- `list`, `timer`, `object`, `thread`, `tick`, `irq`, `error`, `config`:
  the kernel's data: lists, timers, named objects, threads and their states,
  the tick counter, the interrupt depth, error codes and limits.
- `scheduler`: the priority scheduler (ready lists per priority level, a
  bitmap of the non-empty levels, time slices, sleeping threads ordered by
  wake-up tick). Its invariant (`Scheduler::wf`) is kept by every operation,
  and `schedule` always leaves the highest-priority ready thread running.
- `system`: the kernel object that ties scheduler, tick, object container,
  devices, console and heap together; `sys_tick` is the tick interrupt.
- `mem`: a first-fit heap of chained blocks that never leaves two neighbouring
  blocks free; freeing what was just allocated restores the heap.
- `ipc`: spinlock, mutex and counting semaphore.
- `device`, `pin`, `uart`, `watchdog`, `i2c`, `i2c_bit`, `finsh`: the device
  layer and its drivers, down to a bit-banged I2C bus, and the shell's
  command table. Each trait a driver implements (devices, pin controllers,
  serial ports, watchdogs, I2C buses and their line operations) states in
  its contract what each call adds to a record the driver keeps of what it
  was asked and what it answered; the code above the traits is proved
  against those records, so a contract such as "a repeated start drives
  SDA high, releases SCL, ..." speaks of the calls the driver received.
- `libcpu`: the processor port. Its interrupt-mask operations carry a record
  too. The operations that mask interrupts (inserting a ready thread,
  scheduling, starting a timer, putting a thread to sleep, the object
  container's lookups, the tick) take the port and state how they masked
  and restored, each restore giving back the level its masking returned.
- `board`, `gpio`, `usart`: the board's register blocks (clock tree, NVIC,
  SysTick, GPIO ports, USART), modelled as plain structs.
- `bsp`: the trait a board implements.

`app/main.rs` runs the kernel on a host, with a simulated board and the
console on standard output. `tests/` exercises the library.
