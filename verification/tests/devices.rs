//! Device unit tests: timers, UART, the memory blocks, and the bus's
//! address decoding.

use nova3201::bus::{BusError, NovaBus};
use nova3201::timer::{Timer, TIMER_ENABLED, TIMER_IRQ_ENABLED, TIMER_ONE_SHOT};
use nova3201::uart::{Uart, UART_TX_READY, UART_RX_AVAILABLE, UART_IRQ_ENABLE};
use nova3201::vram::Vram;

#[test]
fn timer_fires_every_period() {
    let mut t = Timer::new();
    t.set_period(3);
    for round in 0..4 {
        t.tick();
        assert!(!t.irq() || round > 0, "no IRQ before the period");
        t.tick();
        assert_eq!(t.count(), 2);
        t.tick();
        assert!(t.irq());
        assert_eq!(t.count(), 0, "periodic timer reloads");
        t.ack_irq();
        assert!(!t.irq());
    }
}

#[test]
fn timer_disabled_or_zero_period_idles() {
    let mut t = Timer::new();
    t.tick();
    assert_eq!(t.count(), 0, "period zero counts nothing");
    t.set_period(5);
    t.set_ctrl(0);
    t.tick();
    assert_eq!(t.count(), 0, "disabled timer counts nothing");
}

#[test]
fn timer_one_shot_stops() {
    let mut t = Timer::new();
    t.set_period(2);
    t.set_ctrl(TIMER_ENABLED | TIMER_IRQ_ENABLED | TIMER_ONE_SHOT);
    t.tick();
    t.tick();
    assert!(t.irq());
    assert_eq!(t.ctrl() & TIMER_ENABLED, 0, "one-shot clears enable");
    let frozen = t.count();
    t.tick();
    assert_eq!(t.count(), frozen);
}

#[test]
fn timer_reset_clears_counter_only() {
    let mut t = Timer::new();
    t.set_period(10);
    t.tick();
    t.tick();
    assert_eq!(t.count(), 2);
    t.reset();
    assert_eq!(t.count(), 0);
    assert_eq!(t.period(), 10);
}

#[test]
fn timer_without_irq_enable_stays_quiet() {
    let mut t = Timer::new();
    t.set_period(1);
    t.set_ctrl(TIMER_ENABLED);
    t.tick();
    assert!(!t.irq());
    assert_eq!(t.count(), 0, "still reloads");
}

#[test]
fn uart_tx_appears_in_order() {
    let mut u = Uart::new();
    u.write_tx(1);
    u.write_tx(2);
    u.write_tx(3);
    assert_eq!(u.take_tx(), vec![1u8, 2, 3]);
    assert_eq!(u.take_tx(), Vec::<u8>::new());
    assert_ne!(u.status() & UART_TX_READY, 0);
}

#[test]
fn uart_rx_flow() {
    let mut u = Uart::new();
    u.set_status(UART_IRQ_ENABLE);
    u.push_rx(42);
    u.push_rx(43);
    assert_eq!(u.status() & UART_RX_AVAILABLE, 0);
    u.tick();
    assert_ne!(u.status() & UART_RX_AVAILABLE, 0);
    assert!(u.irq());
    u.tick(); // buffer full: the second byte stays queued
    assert_eq!(u.read_rx(), 42);
    assert!(!u.irq());
    u.tick();
    assert_eq!(u.read_rx(), 43);
    assert_eq!(u.read_rx(), 0, "empty buffer reads zero");
}

#[test]
fn uart_status_write_masks_read_only_bits() {
    let mut u = Uart::new();
    u.set_status(UART_TX_READY | UART_RX_AVAILABLE | UART_IRQ_ENABLE);
    assert_eq!(u.status() & UART_TX_READY, 0);
    assert_eq!(u.status() & UART_RX_AVAILABLE, 0);
    assert_ne!(u.status() & UART_IRQ_ENABLE, 0);
    u.set_status(UART_IRQ_ENABLE);
    u.push_rx(9);
    u.tick();
    assert!(u.irq());
    u.set_status(0);
    assert!(!u.irq(), "clearing IRQ_ENABLE drops a pending IRQ");
}

#[test]
fn vram_bounds_and_round_trip() {
    let mut v = Vram::new(16);
    assert!(v.write32(12, 0xA1B2C3D4).is_ok());
    assert_eq!(v.read32(12).unwrap(), 0xA1B2C3D4);
    assert_eq!(v.read8(12).unwrap(), 0xD4);
    assert!(matches!(v.write32(13, 1), Err(BusError::OutOfBounds(13))));
    assert!(matches!(v.read8(16), Err(BusError::OutOfBounds(16))));
    assert!(v.write8(15, 7).is_ok());
    assert_eq!(v.read8(15).unwrap(), 7);
}

#[test]
fn bus_misaligned_word_access() {
    let mut b = NovaBus::new();
    assert!(matches!(b.load32(2), Err(BusError::Misaligned(2))));
    assert!(matches!(b.store32(0x100_0001, 5), Err(BusError::Misaligned(0x100_0001))));
}

#[test]
fn bus_out_of_bounds() {
    let b = NovaBus::new();
    assert!(matches!(b.load32(0x4000_0000), Err(BusError::OutOfBounds(0x4000_0000))));
    assert!(matches!(b.load8(0x9000_0000), Err(BusError::OutOfBounds(0x9000_0000))));
    // A word read just past the end of RAM.
    assert!(matches!(b.load32(0x000F_FFFC + 4), Err(BusError::OutOfBounds(_))));
}

#[test]
fn bus_ram_word_round_trip() {
    let mut b = NovaBus::new();
    b.store32(0x40, 0x0102_0304).unwrap();
    assert_eq!(b.load32(0x40).unwrap(), 0x0102_0304);
    assert_eq!(b.load8(0x40).unwrap(), 0x04);
    assert_eq!(b.load8(0x43).unwrap(), 0x01);
}

#[test]
fn bus_routes_vram_and_font_bytes() {
    let mut b = NovaBus::new();
    b.store8(0x8000_0010, 0xAA).unwrap();
    assert_eq!(b.load8(0x8000_0010).unwrap(), 0xAA);
    b.store8(0x8000_1010, 0xBB).unwrap();
    assert_eq!(b.load8(0x8000_1010).unwrap(), 0xBB);
    // The two blocks are distinct.
    assert_eq!(b.load8(0x8000_0010).unwrap(), 0xAA);
}

#[test]
fn bus_timer_registers() {
    let mut b = NovaBus::new();
    b.store32(0x8000_2104, 7).unwrap(); // timer1 PERIOD
    assert_eq!(b.load32(0x8000_2104).unwrap(), 7);
    b.store32(0x8000_2100, 1).unwrap(); // timer1 CTRL
    assert_eq!(b.load32(0x8000_2100).unwrap(), 1);
    b.timer1.tick();
    b.timer1.tick();
    b.timer1.tick();
    assert_eq!(b.load32(0x8000_2108).unwrap(), 3); // COUNT
    b.store32(0x8000_210C, 0).unwrap(); // RESET: write-any clears the count
    assert_eq!(b.load32(0x8000_2108).unwrap(), 0);
    // Timer2 is independent.
    assert_eq!(b.load32(0x8000_2124).unwrap(), 0);
}

#[test]
fn bus_uart_tx_word_write() {
    let mut b = NovaBus::new();
    b.store32(0x8000_2200, 0x1234_5678).unwrap();
    assert_eq!(b.uart.take_tx(), vec![0x78u8]);
}

#[test]
fn bus_mmio_byte_read_modify_write() {
    let mut b = NovaBus::new();
    // A byte write into the middle of timer1's PERIOD register lands in
    // the right byte lane of the aligned word.
    b.store8(0x8000_2105, 0x7F).unwrap();
    assert_eq!(b.load32(0x8000_2104).unwrap(), 0x0000_7F00);
    assert_eq!(b.load8(0x8000_2105).unwrap(), 0x7F);
    assert_eq!(b.load8(0x8000_2104).unwrap(), 0x00);
}
