//! DIV and TIMA, clock by clock.

use gbtoexe::hw::timer::{Timer, IRQ_TIMER};

/// A timer that counts TIMA once every sixteen clocks, from counter zero.
fn running() -> Timer {
    let mut timer = Timer::new();
    timer.write(0xff07, 0x05);
    timer.write(0xff04, 0);
    timer.write(0xff05, 0);
    timer
}

#[test]
fn steps_add_up() {
    let mut whole = running();
    let mut parts = running();
    whole.step(100);
    parts.step(37);
    parts.step(63);
    assert_eq!(whole, parts);
}

#[test]
fn div_is_the_counters_high_byte() {
    let mut timer = Timer::new();
    assert_eq!(timer.read(0xff04), 0xab);
    timer.step(0x33);
    assert_eq!(timer.read(0xff04), 0xab);
    timer.step(1);
    assert_eq!(timer.read(0xff04), 0xac);
    timer.step(0x1_0000);
    assert_eq!(timer.read(0xff04), 0xac);
}

#[test]
fn tima_counts_falling_edges_of_the_selected_bit() {
    let mut timer = running();
    timer.step(15);
    assert_eq!(timer.read(0xff05), 0);
    timer.step(1);
    assert_eq!(timer.read(0xff05), 1);
    timer.step(160);
    assert_eq!(timer.read(0xff05), 11);
}

#[test]
fn a_disabled_timer_stands_still() {
    let mut timer = running();
    timer.write(0xff07, 0x01);
    timer.step(1000);
    assert_eq!(timer.read(0xff05), 0);
    assert_eq!(timer.read(0xff07), 0xf9);
}

#[test]
fn writing_div_can_clock_tima() {
    let mut timer = running();
    timer.step(8);
    timer.write(0xff04, 0x77);
    assert_eq!(timer.read(0xff04), 0);
    assert_eq!(timer.read(0xff05), 1);
    timer.write(0xff04, 0x77);
    assert_eq!(timer.read(0xff05), 1);
}

#[test]
fn an_overflow_reloads_four_clocks_late() {
    let mut timer = running();
    timer.write(0xff06, 0x40);
    timer.write(0xff05, 0xff);
    timer.step(16);
    assert_eq!(timer.read(0xff05), 0);
    assert_eq!(timer.irq, 0);
    timer.step(3);
    assert_eq!(timer.read(0xff05), 0);
    assert_eq!(timer.irq, 0);
    timer.step(1);
    assert_eq!(timer.read(0xff05), 0x40);
    assert_eq!(timer.irq, IRQ_TIMER);
}

#[test]
fn a_write_inside_the_reload_window_cancels_it() {
    let mut timer = running();
    timer.write(0xff06, 0x40);
    timer.write(0xff05, 0xff);
    timer.step(16);
    timer.write(0xff05, 0x12);
    timer.step(4);
    assert_eq!(timer.read(0xff05), 0x12);
    assert_eq!(timer.irq, 0);
}

#[test]
fn unmapped_timer_registers_read_as_ones() {
    assert_eq!(Timer::new().read(0xff03), 0xff);
}
