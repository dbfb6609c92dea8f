//! The kernel logic of a small preemptive RTOS for the Cortex-R52:
//! the tick clock, task stacks with their initial context frames,
//! the priority round-robin scheduler, and the register arithmetic
//! of the UART, timer and interrupt controller drivers.

pub mod gic;
pub mod properties;
pub mod scheduler;
pub mod task;
pub mod tick;
pub mod timer;
pub mod uart;
