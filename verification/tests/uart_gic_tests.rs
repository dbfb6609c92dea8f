use rtos::gic::{gic_children_asleep, gic_enable_bit, gic_waker_wake, handle_fiq, TIMER_INTID};
use rtos::tick::TickCounter;
use rtos::timer::{TIMER1_CONTROL_VALUE, TIMER1_LOAD_VALUE};
use rtos::uart::{uart_puts, uart_tx_ready, UartWriter, UART_CTRL_TX_ENABLE};

#[test]
fn uart_puts_sends_the_bytes_in_order() {
    assert_eq!(uart_puts("Hello from RTOS!\n"), b"Hello from RTOS!\n".to_vec());
    assert_eq!(uart_puts(""), Vec::<u8>::new());
    // non-ASCII text goes out as UTF-8
    assert_eq!(uart_puts("é"), vec![0xC3, 0xA9]);
}

#[test]
fn uart_writer_writes_every_string() {
    let mut w = UartWriter;
    assert_eq!(w.write_str("Tick: 1000ms"), b"Tick: 1000ms".to_vec());
    assert_eq!(w.write_str("\n"), vec![b'\n']);
}

#[test]
fn uart_waits_while_transmit_buffer_full() {
    assert!(uart_tx_ready(0));
    assert!(!uart_tx_ready(0b10));
    assert!(!uart_tx_ready(0b11));
    assert!(uart_tx_ready(0b01));
    assert_eq!(UART_CTRL_TX_ENABLE, 1);
}

#[test]
fn gic_wake_clears_processor_sleep_only() {
    assert_eq!(gic_waker_wake(0x6), 0x4);
    assert_eq!(gic_waker_wake(0xFFFF_FFFF), 0xFFFF_FFFD);
    assert_eq!(gic_waker_wake(0x0), 0x0);
    assert!(gic_children_asleep(0x4));
    assert!(gic_children_asleep(0x6));
    assert!(!gic_children_asleep(0x2));
}

#[test]
fn gic_enable_bit_of_timer() {
    // INTID 33 is bit 1 of GICD_ISENABLER1
    assert_eq!(gic_enable_bit(TIMER_INTID), 1 << 1);
    assert_eq!(gic_enable_bit(0), 1);
    assert_eq!(gic_enable_bit(63), 0x8000_0000);
}

#[test]
fn fiq_timer_interrupt_counts_a_tick() {
    let mut t = TickCounter::new();
    assert!(handle_fiq(&mut t, 33));
    assert_eq!(t.get_ticks(), 1);
    assert!(!handle_fiq(&mut t, 30));
    assert!(!handle_fiq(&mut t, 1023));
    assert_eq!(t.get_ticks(), 1);
}

#[test]
fn timer_is_configured_for_100ms() {
    assert_eq!(TIMER1_LOAD_VALUE, 5_000_000);
    assert_eq!(TIMER1_CONTROL_VALUE, 0xE8);
}
