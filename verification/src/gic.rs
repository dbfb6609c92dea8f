//! The register arithmetic of the GICv3 set-up and the interrupt
//! dispatch of the timer FIQ.
use vstd::prelude::*;
use crate::tick::{TickCounter, ticks_after};

verus! {

/// Interrupt ID of the timer (SPI 1).
pub const TIMER_INTID: u32 = 33;

/// GICR_WAKER bit 1: the redistributor's ProcessorSleep.
pub const WAKER_PROCESSOR_SLEEP: u32 = 0x2;

/// GICR_WAKER bit 2: ChildrenAsleep, set until the redistributor is awake.
pub const WAKER_CHILDREN_ASLEEP: u32 = 0x4;

/// GICR_WAKER value that wakes the redistributor: `waker` with
/// ProcessorSleep cleared and every other bit kept.
pub fn gic_waker_wake(waker: u32) -> (w: u32)
    ensures
        w & WAKER_PROCESSOR_SLEEP == 0,
        w | (waker & WAKER_PROCESSOR_SLEEP) == waker,
{
    let w = waker & !WAKER_PROCESSOR_SLEEP;
    assert(w & 0x2 == 0 && w | (waker & 0x2) == waker) by (bit_vector)
        requires
            w == waker & !0x2u32,
    ;
    w
}

/// Whether the redistributor, whose GICR_WAKER reads `waker`, is still
/// asleep (the set-up waits until it is not).
pub fn gic_children_asleep(waker: u32) -> (asleep: bool)
    ensures
        asleep <==> (waker & WAKER_CHILDREN_ASLEEP) != 0,
{
    (waker & WAKER_CHILDREN_ASLEEP) != 0
}

/// The bit of interrupt `intid` in its GICD_ISENABLER register
/// (register `intid / 32`).
pub fn gic_enable_bit(intid: u32) -> (bit: u32)
    ensures
        bit == 1u32 << (intid % 32),
{
    1u32 << (intid % 32)
}

/// The timer's part of the FIQ handler, given the acknowledged interrupt
/// ID: the timer interrupt advances the tick count and asks the caller
/// to clear the timer's interrupt; any other interrupt changes nothing.
/// The caller signals end of interrupt for `intid` in either case.
pub fn handle_fiq(ticks: &mut TickCounter, intid: u32) -> (timer: bool)
    ensures
        timer <==> intid == TIMER_INTID,
        timer ==> final(ticks)@ == ticks_after(old(ticks)@, 1),
        !timer ==> final(ticks)@ == old(ticks)@,
{
    if intid == TIMER_INTID {
        ticks.tick_increment();
        true
    } else {
        false
    }
}

} // verus!
