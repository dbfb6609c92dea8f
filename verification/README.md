# rtos

The verified kernel logic of a small preemptive RTOS for the Arm
Cortex-R52 (mps3-an536 board), written in Verus.

- `src/` — the library, every function verified:
  - `tick` — the wrapping tick counter, busy-wait delay steps, the tick monitor;
  - `task` — task control blocks and the private task stacks with their
    initial register frames;
  - `scheduler` — task states, priority round-robin selection, the timer
    tick (wake-ups, time slices, preemption), sleeping, exiting, task
    registration and start-up with the idle task;
  - `properties` — laws proved over the scheduler's operations;
  - `uart`, `gic`, `timer` — the register arithmetic of the drivers.
- `app/` — the bare-metal image: vector table and reset code, the FIQ
  context-save path, context-switch assembly, MMIO register access and the
  demonstration tasks. It performs the hardware actions that the library's
  decisions call for.
- `tests/` — tests of the library on concrete scenarios.
