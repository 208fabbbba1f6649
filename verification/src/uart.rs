//! UART: a TX byte sink and an RX byte source with a status register and an
//! IRQ line.
//!
//! The host side of the wire is modelled as two queues owned by the device:
//! `rx_queue` holds bytes the host has sent that the device has not yet
//! buffered, and `tx_log` is the sink — every byte written to TX is appended
//! to it, in order. The embedding program feeds `rx_queue` and drains
//! `tx_log` between machine steps.

use vstd::prelude::*;

verus! {

/// Status bit: the transmitter accepts a byte.
pub const UART_TX_READY: u32 = 0x1;
/// Status bit: a received byte is waiting in the buffer.
pub const UART_RX_AVAILABLE: u32 = 0x2;
/// Status bit: raise the IRQ line when a byte arrives.
pub const UART_IRQ_ENABLE: u32 = 0x80;

pub struct Uart {
    /// Status register (`UART_*` bits).
    pub status: u32,
    /// The one-byte receive buffer.
    pub rx_buffer: Option<u8>,
    /// IRQ line.
    pub irq: bool,
    /// Bytes sent by the host and not yet moved into `rx_buffer`.
    pub rx_queue: Vec<u8>,
    /// The sink: every byte transmitted so far, oldest first.
    pub tx_log: Vec<u8>,
}

/// The UART as its contracts see it.
#[verifier::ext_equal]
pub ghost struct UartView {
    pub status: u32,
    pub rx_buffer: Option<u8>,
    pub irq: bool,
    pub rx_queue: Seq<u8>,
    pub tx_log: Seq<u8>,
}

impl View for Uart {
    type V = UartView;

    open spec fn view(&self) -> UartView {
        UartView {
            status: self.status,
            rx_buffer: self.rx_buffer,
            irq: self.irq,
            rx_queue: self.rx_queue@,
            tx_log: self.tx_log@,
        }
    }
}

/// What polling the receiver does: with an empty buffer and a pending host
/// byte, move the byte into the buffer, set RX_AVAILABLE, and raise the IRQ
/// line if so enabled; otherwise nothing.
pub open spec fn spec_poll_rx(u: UartView) -> UartView {
    if u.rx_buffer is Some || u.rx_queue.len() == 0 {
        u
    } else {
        UartView {
            rx_buffer: Some(u.rx_queue[0]),
            rx_queue: u.rx_queue.drop_first(),
            status: u.status | UART_RX_AVAILABLE,
            irq: if u.status & UART_IRQ_ENABLE != 0 { true } else { u.irq },
            ..u
        }
    }
}

impl Uart {
    /// Reset state: transmitter ready, nothing received, IRQ line low.
    pub fn new() -> (u: Uart)
        ensures
            u@ == (UartView {
                status: UART_TX_READY,
                rx_buffer: None,
                irq: false,
                rx_queue: Seq::empty(),
                tx_log: Seq::empty(),
            }),
    {
        Uart {
            status: UART_TX_READY,
            rx_buffer: None,
            irq: false,
            rx_queue: Vec::new(),
            tx_log: Vec::new(),
        }
    }

    pub fn irq(&self) -> (r: bool)
        ensures
            r == self@.irq,
    {
        self.irq
    }

    pub fn status(&self) -> (r: u32)
        ensures
            r == self@.status,
    {
        self.status
    }

    /// Host side: queue a byte as if it arrived on the wire.
    pub fn push_rx(&mut self, b: u8)
        ensures
            final(self)@ == (UartView { rx_queue: old(self)@.rx_queue.push(b), ..old(self)@ }),
    {
        self.rx_queue.push(b);
    }

    /// Host side: take the transmitted bytes, oldest first, leaving the
    /// sink empty.
    pub fn take_tx(&mut self) -> (out: Vec<u8>)
        ensures
            out@ == old(self)@.tx_log,
            final(self)@ == (UartView { tx_log: Seq::empty(), ..old(self)@ }),
    {
        let mut out: Vec<u8> = Vec::new();
        out.append(&mut self.tx_log);
        out
    }

    /// A guest write to STATUS: the read-only bits TX_READY and RX_AVAILABLE
    /// are masked out, and clearing IRQ_ENABLE also drops a pending IRQ.
    pub fn set_status(&mut self, val: u32)
        ensures
            final(self)@ == (UartView {
                status: val & !(UART_TX_READY | UART_RX_AVAILABLE),
                irq: if val & !(UART_TX_READY | UART_RX_AVAILABLE) & UART_IRQ_ENABLE == 0 {
                    false
                } else {
                    old(self)@.irq
                },
                ..old(self)@
            }),
    {
        self.status = val & !(UART_TX_READY | UART_RX_AVAILABLE);
        if self.status & UART_IRQ_ENABLE == 0 {
            self.irq = false;
        }
    }

    /// One machine cycle: poll the receiver.
    pub fn tick(&mut self)
        ensures
            final(self)@ == spec_poll_rx(old(self)@),
    {
        self.poll_rx();
    }

    /// Move a pending host byte into the empty receive buffer.
    pub fn poll_rx(&mut self)
        ensures
            final(self)@ == spec_poll_rx(old(self)@),
    {
        if self.rx_buffer.is_some() {
            return ;
        }
        if self.rx_queue.len() == 0 {
            return ;
        }
        let b = self.rx_queue.remove(0);
        self.rx_buffer = Some(b);
        if self.status & UART_IRQ_ENABLE != 0 {
            self.irq = true;
        }
        self.status = self.status | UART_RX_AVAILABLE;
        proof {
            assert(self@ =~= spec_poll_rx(old(self)@));
        }
    }

    /// A guest read of RX: the buffered byte, or 0 with an empty buffer;
    /// clears RX_AVAILABLE and the IRQ line.
    pub fn read_rx(&mut self) -> (b: u8)
        ensures
            b == (if old(self)@.rx_buffer is Some { old(self)@.rx_buffer->0 } else { 0 }),
            final(self)@ == (UartView {
                rx_buffer: None,
                status: old(self)@.status & !UART_RX_AVAILABLE,
                irq: false,
                ..old(self)@
            }),
    {
        let b = match self.rx_buffer {
            Some(x) => x,
            None => 0,
        };
        self.rx_buffer = None;
        self.status = self.status & !UART_RX_AVAILABLE;
        self.irq = false;
        b
    }

    /// A guest write to TX: the byte goes to the sink, in order, and the
    /// transmitter stays ready. This is the law that whatever is written to
    /// TX appears, in order, on the sink.
    pub fn write_tx(&mut self, b: u8)
        ensures
            final(self)@ == (UartView {
                tx_log: old(self)@.tx_log.push(b),
                status: old(self)@.status | UART_TX_READY,
                ..old(self)@
            }),
    {
        self.tx_log.push(b);
        self.status = self.status | UART_TX_READY;
    }
}

} // verus!
