//! Memory bus: the address decoder that routes loads and stores across RAM,
//! video RAM, font RAM and the memory-mapped device registers.

use vstd::prelude::*;
use crate::ram::Ram;
use crate::vram::{Vram, le32, spec_read32_at, spec_write32_at};
use crate::font::FontRam;
use crate::timer::Timer;
use crate::uart::{Uart, UartView, UART_TX_READY, UART_RX_AVAILABLE, UART_IRQ_ENABLE};

verus! {

/// Errors a bus access can raise.
#[derive(Debug, Clone, Copy, PartialEq, Eq, Structural)]
pub enum BusError {
    /// A 32-bit access on an address that is not 4-byte aligned.
    Misaligned(u32),
    /// An address no region claims, or an access past a region's end.
    OutOfBounds(u32),
    /// A device refused the access.
    DeviceFault(u32),
}

/// Generic bus capability for memory-mapped I/O.
pub trait Bus {
    type Error;

    fn load8(&mut self, addr: u32) -> Result<u8, Self::Error>;

    fn load32(&mut self, addr: u32) -> Result<u32, Self::Error>;

    fn store8(&mut self, addr: u32, value: u8) -> Result<(), Self::Error>;

    fn store32(&mut self, addr: u32, value: u32) -> Result<(), Self::Error>;
}

pub const RAM_BASE: u32 = 0x0000_0000;
pub const RAM_SIZE: u32 = 0x0010_0000;
pub const RAM_END: u32 = 0x000F_FFFF;

pub const VRAM_BASE: u32 = 0x8000_0000;
pub const VRAM_SIZE: u32 = 0x0000_1000;

pub const FONT_BASE: u32 = 0x8000_1000;
pub const FONT_SIZE: u32 = 0x0000_1000;

pub const MMIO_BASE: u32 = 0x8000_2100;
pub const MMIO_END: u32 = 0x8000_22FF;

pub const TIMER1_CTRL: u32 = 0x8000_2100;
pub const TIMER1_PERIOD: u32 = 0x8000_2104;
pub const TIMER1_COUNT: u32 = 0x8000_2108;
pub const TIMER1_RESET: u32 = 0x8000_210C;
pub const TIMER1_ACK: u32 = 0x8000_2110;

pub const TIMER2_CTRL: u32 = 0x8000_2120;
pub const TIMER2_PERIOD: u32 = 0x8000_2124;
pub const TIMER2_COUNT: u32 = 0x8000_2128;
pub const TIMER2_RESET: u32 = 0x8000_212C;
pub const TIMER2_ACK: u32 = 0x8000_2130;

pub const UART_TX: u32 = 0x8000_2200;
pub const UART_STATUS: u32 = 0x8000_2204;

/// The bus and everything it owns, as contracts see it.
#[verifier::ext_equal]
pub ghost struct BusView {
    pub ram: Seq<u8>,
    pub vram: Seq<u8>,
    pub font: Seq<u8>,
    pub timer1: Timer,
    pub timer2: Timer,
    pub uart: UartView,
}

/// The concrete bus of the machine: general RAM, video RAM, font RAM, two
/// timers and the UART.
pub struct NovaBus {
    pub ram: Ram,
    pub vram: Vram,
    pub font_ram: FontRam,
    pub timer1: Timer,
    pub timer2: Timer,
    pub uart: Uart,
}

impl View for NovaBus {
    type V = BusView;

    open spec fn view(&self) -> BusView {
        BusView {
            ram: self.ram.data@,
            vram: self.vram.data@,
            font: self.font_ram.data@,
            timer1: self.timer1,
            timer2: self.timer2,
            uart: self.uart@,
        }
    }
}

/// A word read of a device register. Reads have no effect on any device.
/// The write-only registers (RESET, ACK, TX) read as zero.
pub open spec fn spec_mmio_read32(b: BusView, addr: u32) -> Result<u32, BusError> {
    if addr == TIMER1_CTRL { Ok(b.timer1.ctrl) }
    else if addr == TIMER1_PERIOD { Ok(b.timer1.period) }
    else if addr == TIMER1_COUNT { Ok(b.timer1.counter) }
    else if addr == TIMER1_ACK { Ok(0) }
    else if addr == TIMER1_RESET { Ok(0) }
    else if addr == TIMER2_CTRL { Ok(b.timer2.ctrl) }
    else if addr == TIMER2_PERIOD { Ok(b.timer2.period) }
    else if addr == TIMER2_COUNT { Ok(b.timer2.counter) }
    else if addr == TIMER2_ACK { Ok(0) }
    else if addr == TIMER2_RESET { Ok(0) }
    else if addr == UART_STATUS { Ok(b.uart.status) }
    else if addr == UART_TX { Ok(0) }
    else { Err(BusError::OutOfBounds(addr)) }
}

/// A word write of a device register: route to the named timer or UART
/// register; COUNT writes are ignored; an unmapped register is out of
/// bounds.
pub open spec fn spec_mmio_write32(b: BusView, addr: u32, value: u32) -> (BusView, Result<
    (),
    BusError,
>) {
    if addr == TIMER1_CTRL {
        (BusView { timer1: Timer { ctrl: value, ..b.timer1 }, ..b }, Ok(()))
    } else if addr == TIMER1_PERIOD {
        (BusView { timer1: Timer { period: value, counter: 0, ..b.timer1 }, ..b }, Ok(()))
    } else if addr == TIMER1_COUNT {
        (b, Ok(()))
    } else if addr == TIMER1_ACK {
        (BusView { timer1: Timer { irq: false, ..b.timer1 }, ..b }, Ok(()))
    } else if addr == TIMER1_RESET {
        (BusView { timer1: Timer { counter: 0, ..b.timer1 }, ..b }, Ok(()))
    } else if addr == TIMER2_CTRL {
        (BusView { timer2: Timer { ctrl: value, ..b.timer2 }, ..b }, Ok(()))
    } else if addr == TIMER2_PERIOD {
        (BusView { timer2: Timer { period: value, counter: 0, ..b.timer2 }, ..b }, Ok(()))
    } else if addr == TIMER2_COUNT {
        (b, Ok(()))
    } else if addr == TIMER2_ACK {
        (BusView { timer2: Timer { irq: false, ..b.timer2 }, ..b }, Ok(()))
    } else if addr == TIMER2_RESET {
        (BusView { timer2: Timer { counter: 0, ..b.timer2 }, ..b }, Ok(()))
    } else if addr == UART_STATUS {
        (
            BusView {
                uart: UartView {
                    status: value & !(UART_TX_READY | UART_RX_AVAILABLE),
                    irq: if value & !(UART_TX_READY | UART_RX_AVAILABLE) & UART_IRQ_ENABLE == 0 {
                        false
                    } else {
                        b.uart.irq
                    },
                    ..b.uart
                },
                ..b
            },
            Ok(()),
        )
    } else if addr == UART_TX {
        (
            BusView {
                uart: UartView {
                    tx_log: b.uart.tx_log.push((value & 0xFF) as u8),
                    status: b.uart.status | UART_TX_READY,
                    ..b.uart
                },
                ..b
            },
            Ok(()),
        )
    } else {
        (b, Err(BusError::OutOfBounds(addr)))
    }
}

/// A byte read of a device register: the selected byte of the aligned word.
pub open spec fn spec_mmio_read8(b: BusView, addr: u32) -> Result<u8, BusError> {
    match spec_mmio_read32(b, addr & !3) {
        Ok(word) => Ok(((word >> (((addr & 3) * 8) as u32)) & 0xFF) as u8),
        Err(e) => Err(e),
    }
}

/// A byte write of a device register: UART TX is natively byte-wide; any
/// other register is written read-modify-write on the aligned word.
pub open spec fn spec_mmio_write8(b: BusView, addr: u32, value: u8) -> (BusView, Result<
    (),
    BusError,
>) {
    if addr == UART_TX {
        (
            BusView {
                uart: UartView {
                    tx_log: b.uart.tx_log.push(value),
                    status: b.uart.status | UART_TX_READY,
                    ..b.uart
                },
                ..b
            },
            Ok(()),
        )
    } else {
        let aligned = addr & !3;
        let shift = ((addr & 3) * 8) as u32;
        match spec_mmio_read32(b, aligned) {
            Ok(word) => {
                let merged = (word & !((0xFFu32) << shift)) | ((value as u32) << shift);
                spec_mmio_write32(b, aligned, merged)
            },
            Err(e) => (b, Err(e)),
        }
    }
}

/// A byte load routed by address: RAM, then VRAM, then font RAM, then the
/// device registers; anything else is out of bounds.
pub open spec fn spec_load8(b: BusView, addr: u32) -> Result<u8, BusError> {
    if addr <= RAM_END {
        if addr < b.ram.len() {
            Ok(b.ram[addr as int])
        } else {
            Err(BusError::OutOfBounds(addr))
        }
    } else if VRAM_BASE <= addr < VRAM_BASE + VRAM_SIZE {
        let off = (addr - VRAM_BASE) as u32;
        if off < b.vram.len() {
            Ok(b.vram[off as int])
        } else {
            Err(BusError::OutOfBounds(off))
        }
    } else if FONT_BASE <= addr < FONT_BASE + FONT_SIZE {
        let off = (addr - FONT_BASE) as u32;
        if off < b.font.len() {
            Ok(b.font[off as int])
        } else {
            Err(BusError::OutOfBounds(off))
        }
    } else if MMIO_BASE <= addr <= MMIO_END {
        spec_mmio_read8(b, addr)
    } else {
        Err(BusError::OutOfBounds(addr))
    }
}

/// A word load: must be aligned; reads four RAM bytes little-endian, or one
/// device register. 32-bit access does not reach VRAM or font RAM.
pub open spec fn spec_load32(b: BusView, addr: u32) -> Result<u32, BusError> {
    if addr % 4 != 0 {
        Err(BusError::Misaligned(addr))
    } else if addr <= RAM_END {
        if addr + 3 > RAM_END {
            Err(BusError::OutOfBounds((addr + 3) as u32))
        } else if addr + 4 <= b.ram.len() {
            Ok(spec_read32_at(b.ram, addr as int))
        } else {
            Err(BusError::OutOfBounds(addr))
        }
    } else if MMIO_BASE <= addr <= MMIO_END {
        spec_mmio_read32(b, addr)
    } else {
        Err(BusError::OutOfBounds(addr))
    }
}

/// A byte store routed by address, as `spec_load8` routes byte loads.
pub open spec fn spec_store8(b: BusView, addr: u32, value: u8) -> (BusView, Result<
    (),
    BusError,
>) {
    if addr <= RAM_END {
        if addr < b.ram.len() {
            (BusView { ram: b.ram.update(addr as int, value), ..b }, Ok(()))
        } else {
            (b, Err(BusError::OutOfBounds(addr)))
        }
    } else if VRAM_BASE <= addr < VRAM_BASE + VRAM_SIZE {
        let off = (addr - VRAM_BASE) as u32;
        if off < b.vram.len() {
            (BusView { vram: b.vram.update(off as int, value), ..b }, Ok(()))
        } else {
            (b, Err(BusError::OutOfBounds(off)))
        }
    } else if FONT_BASE <= addr < FONT_BASE + FONT_SIZE {
        let off = (addr - FONT_BASE) as u32;
        if off < b.font.len() {
            (BusView { font: b.font.update(off as int, value), ..b }, Ok(()))
        } else {
            (b, Err(BusError::OutOfBounds(off)))
        }
    } else if MMIO_BASE <= addr <= MMIO_END {
        spec_mmio_write8(b, addr, value)
    } else {
        (b, Err(BusError::OutOfBounds(addr)))
    }
}

/// A word store: must be aligned; writes four RAM bytes little-endian, or
/// one device register.
pub open spec fn spec_store32(b: BusView, addr: u32, value: u32) -> (BusView, Result<
    (),
    BusError,
>) {
    if addr % 4 != 0 {
        (b, Err(BusError::Misaligned(addr)))
    } else if addr <= RAM_END {
        if addr + 4 <= b.ram.len() {
            (BusView { ram: spec_write32_at(b.ram, addr as int, value), ..b }, Ok(()))
        } else {
            (b, Err(BusError::OutOfBounds(addr)))
        }
    } else if MMIO_BASE <= addr <= MMIO_END {
        spec_mmio_write32(b, addr, value)
    } else {
        (b, Err(BusError::OutOfBounds(addr)))
    }
}

impl NovaBus {
    /// A bus at power-on: zero-filled memory, both timers and the UART in
    /// their reset state.
    pub fn new() -> (b: NovaBus)
        ensures
            b@.ram == Seq::new(RAM_SIZE as nat, |i: int| 0u8),
            b@.vram == Seq::new(VRAM_SIZE as nat, |i: int| 0u8),
            b@.font == Seq::new(FONT_SIZE as nat, |i: int| 0u8),
            b@.timer1.ctrl == crate::timer::TIMER_ENABLED | crate::timer::TIMER_IRQ_ENABLED,
            b@.timer1.counter == 0,
            b@.timer1.period == 0,
            !b@.timer1.irq,
            b@.timer2 == b@.timer1,
            b@.uart == (UartView {
                status: UART_TX_READY,
                rx_buffer: None,
                irq: false,
                rx_queue: Seq::empty(),
                tx_log: Seq::empty(),
            }),
    {
        NovaBus {
            ram: Ram::new(RAM_SIZE as usize),
            vram: Vram::new(VRAM_SIZE as usize),
            font_ram: FontRam::new(FONT_SIZE as usize),
            timer1: Timer::new(),
            timer2: Timer::new(),
            uart: Uart::new(),
        }
    }

    fn mmio_read32(&self, addr: u32) -> (r: Result<u32, BusError>)
        ensures
            r == spec_mmio_read32(self@, addr),
    {
        if addr == TIMER1_CTRL { Ok(self.timer1.ctrl()) }
        else if addr == TIMER1_PERIOD { Ok(self.timer1.period()) }
        else if addr == TIMER1_COUNT { Ok(self.timer1.count()) }
        else if addr == TIMER1_ACK { Ok(0) }
        else if addr == TIMER1_RESET { Ok(0) }
        else if addr == TIMER2_CTRL { Ok(self.timer2.ctrl()) }
        else if addr == TIMER2_PERIOD { Ok(self.timer2.period()) }
        else if addr == TIMER2_COUNT { Ok(self.timer2.count()) }
        else if addr == TIMER2_ACK { Ok(0) }
        else if addr == TIMER2_RESET { Ok(0) }
        else if addr == UART_STATUS { Ok(self.uart.status()) }
        else if addr == UART_TX { Ok(0) }
        else { Err(BusError::OutOfBounds(addr)) }
    }

    fn mmio_write32(&mut self, addr: u32, value: u32) -> (r: Result<(), BusError>)
        ensures
            final(self)@ == spec_mmio_write32(old(self)@, addr, value).0,
            r == spec_mmio_write32(old(self)@, addr, value).1,
    {
        if addr == TIMER1_CTRL { self.timer1.set_ctrl(value); Ok(()) }
        else if addr == TIMER1_PERIOD { self.timer1.set_period(value); Ok(()) }
        else if addr == TIMER1_COUNT { Ok(()) }
        else if addr == TIMER1_ACK { self.timer1.ack_irq(); Ok(()) }
        else if addr == TIMER1_RESET { self.timer1.reset(); Ok(()) }
        else if addr == TIMER2_CTRL { self.timer2.set_ctrl(value); Ok(()) }
        else if addr == TIMER2_PERIOD { self.timer2.set_period(value); Ok(()) }
        else if addr == TIMER2_COUNT { Ok(()) }
        else if addr == TIMER2_ACK { self.timer2.ack_irq(); Ok(()) }
        else if addr == TIMER2_RESET { self.timer2.reset(); Ok(()) }
        else if addr == UART_STATUS { self.uart.set_status(value); Ok(()) }
        else if addr == UART_TX { self.uart.write_tx((value & 0xFF) as u8); Ok(()) }
        else { Err(BusError::OutOfBounds(addr)) }
    }

    fn mmio_read8(&self, addr: u32) -> (r: Result<u8, BusError>)
        ensures
            r == spec_mmio_read8(self@, addr),
    {
        let word = match self.mmio_read32(addr & !3) {
            Ok(w) => w,
            Err(e) => { return Err(e); },
        };
        proof {
            assert(addr & 3 < 4) by (bit_vector);
        }
        let shift: u32 = (addr & 3) * 8;
        Ok(((word >> shift) & 0xFF) as u8)
    }

    fn mmio_write8(&mut self, addr: u32, value: u8) -> (r: Result<(), BusError>)
        ensures
            final(self)@ == spec_mmio_write8(old(self)@, addr, value).0,
            r == spec_mmio_write8(old(self)@, addr, value).1,
    {
        if addr == UART_TX {
            self.uart.write_tx(value);
            return Ok(());
        }
        let aligned = addr & !3;
        proof {
            assert(addr & 3 < 4) by (bit_vector);
        }
        let shift: u32 = (addr & 3) * 8;
        let word = match self.mmio_read32(aligned) {
            Ok(w) => w,
            Err(e) => { return Err(e); },
        };
        let merged = (word & !(0xFFu32 << shift)) | ((value as u32) << shift);
        self.mmio_write32(aligned, merged)
    }

    /// A byte load routed by address.
    pub fn load8(&self, addr: u32) -> (r: Result<u8, BusError>)
        ensures
            r == spec_load8(self@, addr),
    {
        if addr <= RAM_END {
            return self.ram.read8(addr);
        }
        if addr >= VRAM_BASE && addr < VRAM_BASE + VRAM_SIZE {
            return self.vram.read8(addr - VRAM_BASE);
        }
        if addr >= FONT_BASE && addr < FONT_BASE + FONT_SIZE {
            return self.font_ram.read8(addr - FONT_BASE);
        }
        if addr >= MMIO_BASE && addr <= MMIO_END {
            return self.mmio_read8(addr);
        }
        Err(BusError::OutOfBounds(addr))
    }

    /// An aligned word load routed by address.
    pub fn load32(&self, addr: u32) -> (r: Result<u32, BusError>)
        ensures
            r == spec_load32(self@, addr),
    {
        if addr % 4 != 0 {
            return Err(BusError::Misaligned(addr));
        }
        if addr <= RAM_END {
            if addr + 3 > RAM_END {
                return Err(BusError::OutOfBounds(addr + 3));
            }
            return self.ram.read32(addr);
        }
        if addr >= MMIO_BASE && addr <= MMIO_END {
            return self.mmio_read32(addr);
        }
        Err(BusError::OutOfBounds(addr))
    }

    /// A byte store routed by address.
    pub fn store8(&mut self, addr: u32, value: u8) -> (r: Result<(), BusError>)
        ensures
            final(self)@ == spec_store8(old(self)@, addr, value).0,
            r == spec_store8(old(self)@, addr, value).1,
    {
        if addr <= RAM_END {
            return self.ram.write8(addr, value);
        }
        if addr >= VRAM_BASE && addr < VRAM_BASE + VRAM_SIZE {
            return self.vram.write8(addr - VRAM_BASE, value);
        }
        if addr >= FONT_BASE && addr < FONT_BASE + FONT_SIZE {
            return self.font_ram.write8(addr - FONT_BASE, value);
        }
        if addr >= MMIO_BASE && addr <= MMIO_END {
            return self.mmio_write8(addr, value);
        }
        Err(BusError::OutOfBounds(addr))
    }

    /// An aligned word store routed by address.
    pub fn store32(&mut self, addr: u32, value: u32) -> (r: Result<(), BusError>)
        ensures
            final(self)@ == spec_store32(old(self)@, addr, value).0,
            r == spec_store32(old(self)@, addr, value).1,
    {
        if addr % 4 != 0 {
            return Err(BusError::Misaligned(addr));
        }
        if addr <= RAM_END {
            return self.ram.write32(addr, value);
        }
        if addr >= MMIO_BASE && addr <= MMIO_END {
            return self.mmio_write32(addr, value);
        }
        Err(BusError::OutOfBounds(addr))
    }
}

impl Bus for NovaBus {
    type Error = BusError;

    fn load8(&mut self, addr: u32) -> Result<u8, BusError> {
        NovaBus::load8(self, addr)
    }

    fn load32(&mut self, addr: u32) -> Result<u32, BusError> {
        NovaBus::load32(self, addr)
    }

    fn store8(&mut self, addr: u32, value: u8) -> Result<(), BusError> {
        NovaBus::store8(self, addr, value)
    }

    fn store32(&mut self, addr: u32, value: u32) -> Result<(), BusError> {
        NovaBus::store32(self, addr, value)
    }
}

/// Law: an aligned word stored into RAM through the bus reads back as the
/// same word.
pub proof fn lemma_store32_load32_round_trip(b: BusView, addr: u32, value: u32)
    requires
        addr % 4 == 0,
        addr + 3 <= RAM_END,
        addr + 4 <= b.ram.len(),
    ensures
        spec_load32(spec_store32(b, addr, value).0, addr) == Ok::<u32, BusError>(value),
{
    crate::vram::lemma_read32_of_write32(b.ram, addr as int, value);
}

} // verus!