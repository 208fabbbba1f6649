//! The machine: the CPU and the bus it owns, advanced one cycle at a time.
//! Each step ticks every device, samples the IRQ lines into a snapshot, and
//! then runs the CPU for exactly one instruction against that snapshot.

use vstd::prelude::*;
use crate::bus::{BusView, NovaBus};
use crate::cpu::{Cpu, CpuView, spec_step};
use crate::timer::spec_tick;
use crate::uart::spec_poll_rx;
use crate::vram::spec_write32_at;

verus! {

/// The devices' IRQ lines, sampled once per cycle before the CPU runs.
#[derive(Clone, Copy, PartialEq, Eq, Structural)]
pub struct IrqLines {
    pub timer1: bool,
    pub timer2: bool,
    pub uart: bool,
}

pub struct Machine {
    pub cpu: Cpu,
    pub bus: NovaBus,
}

/// One machine cycle: tick both timers and the UART, sample their IRQ
/// lines, then advance the CPU one instruction. A bus error inside the CPU
/// step is swallowed at this level; the states it leaves are kept.
pub open spec fn spec_machine_step(cpu: CpuView, bus: BusView) -> (CpuView, BusView) {
    let ticked = BusView {
        timer1: spec_tick(bus.timer1),
        timer2: spec_tick(bus.timer2),
        uart: spec_poll_rx(bus.uart),
        ..bus
    };
    let irq = IrqLines {
        timer1: spec_tick(bus.timer1).irq,
        timer2: spec_tick(bus.timer2).irq,
        uart: spec_poll_rx(bus.uart).irq,
    };
    let r = spec_step(cpu, ticked, irq);
    (r.0, r.1)
}

/// `spec_machine_step` iterated: up to `n` cycles, stopping early once the
/// CPU halts.
pub open spec fn spec_machine_run(cpu: CpuView, bus: BusView, n: nat) -> (CpuView, BusView)
    decreases n,
{
    if n == 0 || cpu.halted {
        (cpu, bus)
    } else {
        let s = spec_machine_step(cpu, bus);
        spec_machine_run(s.0, s.1, (n - 1) as nat)
    }
}

/// A program image laid down word by word: `words[i]` stored little-endian
/// at `base + 4·i`.
pub open spec fn spec_load_words(mem: Seq<u8>, base: int, words: Seq<u32>) -> Seq<u8>
    decreases words.len(),
{
    if words.len() == 0 {
        mem
    } else {
        spec_load_words(spec_write32_at(mem, base, words[0]), base + 4, words.drop_first())
    }
}

impl Default for Machine {
    /// A machine at power-on, as `Machine::new` builds it.
    fn default() -> (m: Machine)
        ensures
            m.cpu@.pc == crate::cpu::RESET_VECTOR,
            !m.cpu@.halted,
            m.cpu@.regs == Seq::new(32, |i: int| 0u32),
    {
        Machine::new()
    }
}

impl Machine {
    /// A machine at power-on.
    pub fn new() -> (m: Machine)
        ensures
            m.cpu@.regs == Seq::new(32, |i: int| 0u32),
            m.cpu@.pc == crate::cpu::RESET_VECTOR,
            m.cpu@.sr == 0,
            m.cpu@.epc == 0,
            m.cpu@.cause == 0,
            !m.cpu@.halted,
            m.bus@.ram == Seq::new(crate::bus::RAM_SIZE as nat, |i: int| 0u8),
            m.bus@.vram == Seq::new(crate::bus::VRAM_SIZE as nat, |i: int| 0u8),
            m.bus@.font == Seq::new(crate::bus::FONT_SIZE as nat, |i: int| 0u8),
            m.bus@.timer1 == m.bus@.timer2,
            m.bus@.timer1.ctrl == crate::timer::TIMER_ENABLED | crate::timer::TIMER_IRQ_ENABLED,
            m.bus@.timer1.period == 0,
            m.bus@.timer1.counter == 0,
            !m.bus@.timer1.irq,
            m.bus@.uart.tx_log == Seq::<u8>::empty(),
            m.bus@.uart.rx_queue == Seq::<u8>::empty(),
            m.bus@.uart.rx_buffer is None,
            !m.bus@.uart.irq,
    {
        Machine { cpu: Cpu::new(), bus: NovaBus::new() }
    }

    /// Write a program image into RAM, word `i` at `base + 4·i`.
    pub fn load_program(&mut self, base: u32, words: &[u32])
        requires
            base + 4 * words@.len() <= old(self).bus@.ram.len(),
            base + 4 * words@.len() < 0x1_0000_0000,
        ensures
            final(self).bus@ == (BusView {
                ram: spec_load_words(old(self).bus@.ram, base as int, words@),
                ..old(self).bus@
            }),
            final(self).cpu@ == old(self).cpu@,
    {
        let n = words.len();
        let ghost orig_ram = self.bus@.ram;
        proof {
            assert(words@.skip(0) =~= words@);
        }
        let mut i: usize = 0;
        while i < n
            invariant
                n == words@.len(),
                0 <= i <= n,
                base + 4 * n <= orig_ram.len(),
                base + 4 * n < 0x1_0000_0000,
                self.bus@.ram.len() == orig_ram.len(),
                spec_load_words(orig_ram, base as int, words@) == spec_load_words(
                    self.bus@.ram,
                    base as int + 4 * i,
                    words@.skip(i as int),
                ),
                self.bus@ == (BusView { ram: self.bus@.ram, ..old(self).bus@ }),
                self.cpu@ == old(self).cpu@,
            decreases n - i,
        {
            let addr = base + (i as u32) * 4;
            let ghost pre = self.bus@.ram;
            let res = self.bus.ram.write32(addr, words[i]);
            proof {
                assert(words@.skip(i as int).drop_first() =~= words@.skip(i as int + 1));
                assert(words@.skip(i as int)[0] == words@[i as int]);
            }
            i = i + 1;
        }
        proof {
            assert(words@.skip(n as int) =~= Seq::<u32>::empty());
            assert(final(self).bus@ =~= (BusView {
                ram: spec_load_words(old(self).bus@.ram, base as int, words@),
                ..old(self).bus@
            }));
        }
    }

    /// One cycle of the whole machine.
    pub fn step(&mut self)
        ensures
            final(self).cpu@ == spec_machine_step(old(self).cpu@, old(self).bus@).0,
            final(self).bus@ == spec_machine_step(old(self).cpu@, old(self).bus@).1,
    {
        self.bus.timer1.tick();
        self.bus.timer2.tick();
        self.bus.uart.tick();

        let irq = IrqLines {
            timer1: self.bus.timer1.irq(),
            timer2: self.bus.timer2.irq(),
            uart: self.bus.uart.irq(),
        };

        let _ = self.cpu.step(&mut self.bus, &irq);
    }

    /// Run up to `max_steps` cycles, stopping once the CPU halts. Returns
    /// the number of cycles actually run.
    pub fn run(&mut self, max_steps: u32) -> (steps: u32)
        ensures
            final(self).cpu@ == spec_machine_run(
                old(self).cpu@,
                old(self).bus@,
                max_steps as nat,
            ).0,
            final(self).bus@ == spec_machine_run(
                old(self).cpu@,
                old(self).bus@,
                max_steps as nat,
            ).1,
            steps <= max_steps,
    {
        let mut i: u32 = 0;
        while i < max_steps
            invariant
                0 <= i <= max_steps,
                spec_machine_run(old(self).cpu@, old(self).bus@, max_steps as nat)
                    == spec_machine_run(self.cpu@, self.bus@, (max_steps - i) as nat),
            decreases max_steps - i,
        {
            if self.cpu.halted() {
                proof {
                    lemma_run_halted(self.cpu@, self.bus@, (max_steps - i) as nat);
                }
                return i;
            }
            self.step();
            i = i + 1;
        }
        i
    }
}

/// Iterating from a halted CPU changes nothing.
proof fn lemma_run_halted(cpu: CpuView, bus: BusView, n: nat)
    requires
        cpu.halted,
    ensures
        spec_machine_run(cpu, bus, n) == (cpu, bus),
    decreases n,
{
    if n > 0 {
        lemma_run_halted(cpu, bus, (n - 1) as nat);
    }
}

/// Law: register zero reads as zero after every machine cycle, and so
/// after any number of them — whatever the devices, the memory and the
/// program do.
pub proof fn lemma_machine_step_r0_zero(cpu: CpuView, bus: BusView)
    requires
        cpu.regs.len() == 32,
        cpu.regs[0] == 0,
    ensures
        spec_machine_step(cpu, bus).0.regs[0] == 0,
        spec_machine_step(cpu, bus).0.regs.len() == 32,
{
    let ticked = BusView {
        timer1: spec_tick(bus.timer1),
        timer2: spec_tick(bus.timer2),
        uart: spec_poll_rx(bus.uart),
        ..bus
    };
    let irq = IrqLines {
        timer1: spec_tick(bus.timer1).irq,
        timer2: spec_tick(bus.timer2).irq,
        uart: spec_poll_rx(bus.uart).irq,
    };
    crate::cpu::lemma_step_r0_zero(cpu, ticked, irq);
}

/// The run-level form of the same law.
pub proof fn lemma_machine_run_r0_zero(cpu: CpuView, bus: BusView, n: nat)
    requires
        cpu.regs.len() == 32,
        cpu.regs[0] == 0,
    ensures
        spec_machine_run(cpu, bus, n).0.regs[0] == 0,
        spec_machine_run(cpu, bus, n).0.regs.len() == 32,
    decreases n,
{
    if n > 0 && !cpu.halted {
        let s = spec_machine_step(cpu, bus);
        lemma_machine_step_r0_zero(cpu, bus);
        lemma_machine_run_r0_zero(s.0, s.1, (n - 1) as nat);
    }
}

} // verus!