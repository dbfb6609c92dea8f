use rtos::tick::{
    delay_ms, delay_ticks, elapsed_ticks, report_due, ticks_to_ms, TickCounter, TICK_PERIOD_MS,
};

#[test]
fn counter_starts_at_zero_and_counts() {
    let mut t = TickCounter::new();
    assert_eq!(t.get_ticks(), 0);
    t.tick_increment();
    t.tick_increment();
    t.tick_increment();
    assert_eq!(t.get_ticks(), 3);
}

#[test]
fn elapsed_across_wrap_around() {
    // 0x0000_0003 - 0xFFFF_FFFF on the wrapping counter is 4 ticks
    assert_eq!(elapsed_ticks(0xFFFF_FFFF, 0x0000_0003), 4);
    assert_eq!(elapsed_ticks(10, 25), 15);
    assert_eq!(elapsed_ticks(7, 7), 0);
}

#[test]
fn delay_ticks_ends_after_n_ticks() {
    assert!(!delay_ticks(100, 114, 15));
    assert!(delay_ticks(100, 115, 15));
    assert!(delay_ticks(100, 200, 15));
    assert!(delay_ticks(5, 5, 0));
    // across the wrap-around
    assert!(!delay_ticks(0xFFFF_FFFF, 2, 4));
    assert!(delay_ticks(0xFFFF_FFFF, 3, 4));
}

#[test]
fn delay_ms_waits_whole_ticks() {
    assert_eq!(TICK_PERIOD_MS, 100);
    // 450 ms is 4 whole ticks
    assert!(!delay_ms(0, 3, 450));
    assert!(delay_ms(0, 4, 450));
    // less than one tick does not wait
    assert!(delay_ms(9, 9, 99));
}

#[test]
fn tick_monitor_reports_every_ten_ticks() {
    assert!(!report_due(0, 9));
    assert!(report_due(0, 10));
    assert!(report_due(0xFFFF_FFFA, 4));
    assert_eq!(ticks_to_ms(10), 1000);
    assert_eq!(ticks_to_ms(0), 0);
}

#[test]
fn m_increments_add_m() {
    let mut t = TickCounter::new();
    let k = t.get_ticks();
    for _ in 0..1000 {
        t.tick_increment();
    }
    assert_eq!(t.get_ticks(), k.wrapping_add(1000));
    assert_eq!(t.get_ticks(), t.get_ticks());
    assert_eq!(elapsed_ticks(k, t.get_ticks()), 1000);
}
