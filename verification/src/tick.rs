//! The system tick: a 32-bit counter that the timer interrupt advances
//! once per period, and the wrap-around arithmetic built on it.
use vstd::prelude::*;

verus! {

/// Length of one tick in milliseconds (a 5_000_000-cycle period at 50 MHz).
pub const TICK_PERIOD_MS: u32 = 100;

/// Number of ticks between two lines of the tick monitor.
pub const REPORT_INTERVAL_TICKS: u32 = 10;

/// Ticks that have passed from `start` to `now` on a counter that wraps
/// around at 2^32.
pub open spec fn ticks_elapsed(start: u32, now: u32) -> nat {
    if now >= start {
        (now - start) as nat
    } else {
        (now + 0x1_0000_0000 - start) as nat
    }
}

/// The counter value `n` ticks after `start`, modulo 2^32.
pub open spec fn ticks_after(start: u32, n: u32) -> u32 {
    if start + n < 0x1_0000_0000 {
        (start + n) as u32
    } else {
        (start + n - 0x1_0000_0000) as u32
    }
}

/// The tick counter. Only the timer interrupt should advance it.
pub struct TickCounter {
    count: u32,
}

impl View for TickCounter {
    type V = u32;

    closed spec fn view(&self) -> u32 {
        self.count
    }
}

impl TickCounter {
    /// A counter at zero, as at reset.
    pub fn new() -> (t: Self)
        ensures
            t@ == 0,
    {
        TickCounter { count: 0 }
    }

    /// Advances the counter by one tick, wrapping around at 2^32.
    pub fn tick_increment(&mut self)
        ensures
            final(self)@ == ticks_after(old(self)@, 1),
    {
        self.count = self.count.wrapping_add(1);
    }

    /// The current tick count.
    pub fn get_ticks(&self) -> (t: u32)
        ensures
            t == self@,
    {
        self.count
    }
}

/// Ticks elapsed from `start` to `now`, correct across wrap-around.
pub fn elapsed_ticks(start: u32, now: u32) -> (e: u32)
    ensures
        e == ticks_elapsed(start, now),
{
    now.wrapping_sub(start)
}

/// One step of the busy-wait delay of `n` ticks that began at tick
/// `start`: whether the wait is over once the counter reads `now`.
pub fn delay_ticks(start: u32, now: u32, n: u32) -> (done: bool)
    ensures
        done <==> ticks_elapsed(start, now) >= n,
{
    elapsed_ticks(start, now) >= n
}

/// Number of whole ticks that a delay of `ms` milliseconds waits.
pub open spec fn ms_to_ticks(ms: u32) -> u32 {
    ms / TICK_PERIOD_MS
}

/// One step of the busy-wait delay of `ms` milliseconds that began at
/// tick `start`: the delay waits `ms / TICK_PERIOD_MS` whole ticks.
pub fn delay_ms(start: u32, now: u32, ms: u32) -> (done: bool)
    ensures
        done <==> ticks_elapsed(start, now) >= ms_to_ticks(ms),
        done <==> (ticks_elapsed(start, now) + 1) * TICK_PERIOD_MS > ms,
{
    proof {
        law_delay_ms_whole_periods(start, now, ms);
    }
    delay_ticks(start, now, ms / TICK_PERIOD_MS)
}

/// A delay of `ms` milliseconds waits the whole number of tick periods in
/// it: `ms_to_ticks(ms)` periods fit in `ms` and one more does not; so
/// the delay is over once the ticks elapsed, plus the one in progress,
/// cover more than `ms` milliseconds.
pub proof fn law_delay_ms_whole_periods(start: u32, now: u32, ms: u32)
    ensures
        ms_to_ticks(ms) * TICK_PERIOD_MS <= ms,
        ms < (ms_to_ticks(ms) + 1) * TICK_PERIOD_MS,
        ticks_elapsed(start, now) >= ms_to_ticks(ms) <==> (ticks_elapsed(start, now) + 1) * TICK_PERIOD_MS > ms,
{
    let q = ms_to_ticks(ms) as int;
    let e = ticks_elapsed(start, now) as int;
    assert(q * 100 <= ms && ms < (q + 1) * 100) by (nonlinear_arith)
        requires
            q == ms as int / 100,
    ;
    assert(e >= q <==> (e + 1) * 100 > ms) by (nonlinear_arith)
        requires
            q * 100 <= ms,
            ms < (q + 1) * 100,
            e >= 0,
    ;
}

/// Milliseconds since reset for a tick count.
pub fn ticks_to_ms(t: u32) -> (ms: u32)
    requires
        t * TICK_PERIOD_MS <= u32::MAX,
    ensures
        ms == t * TICK_PERIOD_MS,
{
    t * TICK_PERIOD_MS
}

/// Whether the tick monitor, whose last line was at tick `last`, prints
/// a line at tick `now`.
pub fn report_due(last: u32, now: u32) -> (due: bool)
    ensures
        due <==> ticks_elapsed(last, now) >= REPORT_INTERVAL_TICKS,
{
    elapsed_ticks(last, now) >= REPORT_INTERVAL_TICKS
}

/// The counter read `k` ticks after `start` shows exactly `k` elapsed
/// ticks, also when it wrapped around in between; so a delay of `n`
/// ticks begun at `start` is over `k` ticks later exactly when `k >= n`.
pub proof fn law_elapsed_after(start: u32, k: u32, n: u32)
    ensures
        ticks_elapsed(start, ticks_after(start, k)) == k,
        ticks_elapsed(start, ticks_after(start, k)) >= n <==> k >= n,
{
}

/// The counter value after `m` timer interrupts starting from `k`, one
/// `tick_increment` each.
pub open spec fn ticks_after_increments(k: u32, m: nat) -> u32
    decreases m,
{
    if m == 0 {
        k
    } else {
        ticks_after(ticks_after_increments(k, (m - 1) as nat), 1)
    }
}

/// A counter that read `k` reads `k + m` modulo 2^32 after `m` increments
/// (reading it changes nothing), so `m` ticks later exactly `m mod 2^32`
/// ticks have elapsed.
pub proof fn law_increments_accumulate(k: u32, m: nat)
    ensures
        ticks_after_increments(k, m) == (k + m) % 0x1_0000_0000,
        ticks_elapsed(k, ticks_after_increments(k, m)) == m % 0x1_0000_0000,
    decreases m,
{
    if m > 0 {
        law_increments_accumulate(k, (m - 1) as nat);
        let p = ticks_after_increments(k, (m - 1) as nat);
        assert(p == (k + (m - 1)) % 0x1_0000_0000);
        assert(((k + (m - 1)) % 0x1_0000_0000 + 1) % 0x1_0000_0000 == (k + m) % 0x1_0000_0000) by {
            vstd::arithmetic::div_mod::lemma_add_mod_noop((k + (m - 1)) as int, 1, 0x1_0000_0000);
            vstd::arithmetic::div_mod::lemma_small_mod(1nat, 0x1_0000_0000nat);
        }
    }
    let r = ticks_after_increments(k, m);
    assert(ticks_elapsed(k, r) == m % 0x1_0000_0000) by {
        vstd::arithmetic::div_mod::lemma_fundamental_div_mod((k + m) as int, 0x1_0000_0000);
        vstd::arithmetic::div_mod::lemma_fundamental_div_mod(m as int, 0x1_0000_0000);
        vstd::arithmetic::div_mod::lemma_add_mod_noop(k as int, m as int, 0x1_0000_0000);
        vstd::arithmetic::div_mod::lemma_small_mod(k as nat, 0x1_0000_0000nat);
        vstd::arithmetic::div_mod::lemma_mod_bound(m as int, 0x1_0000_0000);
    }
}

} // verus!
