//! The dual timer's configuration for the system tick.
use vstd::prelude::*;
use crate::tick::TICK_PERIOD_MS;

verus! {

/// Input clock of the timer in Hz.
pub const TIMER_CLOCK_HZ: u32 = 50_000_000;

/// Load value of timer 1: one interrupt every `TICK_PERIOD_MS`.
pub const TIMER1_LOAD_VALUE: u32 = 5_000_000;

/// Control value of timer 1: TimerEn | periodic TimerMode | IntEnable |
/// 32-bit TimerSize.
pub const TIMER1_CONTROL_VALUE: u32 = 0xE8;

/// Control register bits.
pub const TIMER_CTRL_ENABLE: u32 = 0x80;
pub const TIMER_CTRL_PERIODIC: u32 = 0x40;
pub const TIMER_CTRL_INT_ENABLE: u32 = 0x20;
pub const TIMER_CTRL_32BIT: u32 = 0x08;

/// The load value gives one interrupt per tick period, and the control
/// value is the four control bits together.
pub proof fn law_timer_matches_tick()
    ensures
        TIMER1_LOAD_VALUE as int * 1000 == TIMER_CLOCK_HZ as int * TICK_PERIOD_MS as int,
        TIMER1_CONTROL_VALUE == TIMER_CTRL_ENABLE | TIMER_CTRL_PERIODIC | TIMER_CTRL_INT_ENABLE | TIMER_CTRL_32BIT,
{
    assert(0xE8u32 == 0x80u32 | 0x40u32 | 0x20u32 | 0x08u32) by (bit_vector);
}

} // verus!
