//! CPU execution engine: instruction decode, the register state machine,
//! branch and jump semantics, sign and zero extension, exception and
//! interrupt entry.
//!
//! `spec_step` is the machine's transition function: one cycle as a pure
//! function of the CPU state, the bus state and the sampled IRQ lines.
//! `Cpu::step` is proved to implement it exactly.

use vstd::prelude::*;
use crate::bus::{BusError, BusView, NovaBus, spec_load32, spec_load8, spec_store32, spec_store8};
use crate::machine::IrqLines;
use crate::isa::{
    CAUSE_ILLEGAL_OP, CAUSE_TIMER1_IRQ, CAUSE_TIMER2_IRQ, CAUSE_UART_IRQ, OP_ADD, OP_SUB, OP_AND,
    OP_OR, OP_XOR, OP_SLT, OP_SLTU, OP_SHL, OP_SHR, OP_SAR, OP_ADDI, OP_ANDI, OP_ORI, OP_XORI,
    OP_SLTI, OP_SLTIU, OP_LUI, OP_LW, OP_SW, OP_LB, OP_SB, OP_BEQ, OP_BNE, OP_BLT, OP_BGE, OP_J,
    OP_JAL, OP_JR, OP_JALR, OP_NOP, OP_HALT,
};

verus! {

/// Status register bit: exception in progress.
pub const SR_EI: u32 = 0x1;
/// Status register bit: user mode.
pub const SR_U: u32 = 0x4;
/// Status register bit: interrupt enable.
pub const SR_IE: u32 = 0x10;

/// Where `JAL` stores the return address.
pub const LINK_REGISTER: usize = 31;

/// Where execution begins at power-on.
pub const RESET_VECTOR: u32 = 0x0000_0000;
/// Where execution continues on any exception or interrupt.
pub const EXCEPTION_VECTOR: u32 = 0x0000_0100;

pub struct Cpu {
    /// General-purpose registers; `regs[0]` always reads as zero.
    pub regs: [u32; 32],
    /// Program counter.
    pub pc: u32,
    /// Status register (`SR_*` bits).
    pub sr: u32,
    /// Program counter saved at the last exception or interrupt entry.
    pub epc: u32,
    /// Cause code of the last exception or interrupt.
    pub cause: u32,
    /// Once true, the CPU is idle.
    pub halted: bool,
}

/// The CPU as its contracts see it.
#[verifier::ext_equal]
pub ghost struct CpuView {
    pub regs: Seq<u32>,
    pub pc: u32,
    pub sr: u32,
    pub epc: u32,
    pub cause: u32,
    pub halted: bool,
}

impl View for Cpu {
    type V = CpuView;

    open spec fn view(&self) -> CpuView {
        CpuView {
            regs: self.regs@,
            pc: self.pc,
            sr: self.sr,
            epc: self.epc,
            cause: self.cause,
            halted: self.halted,
        }
    }
}

/// One 32-bit instruction word split into its field overlays. Every opcode
/// uses exactly one of the overlays.
#[derive(Debug, Clone, Copy, PartialEq, Eq, Structural)]
pub struct Instruction {
    pub opcode: u8,
    pub rd: usize,
    pub rs: usize,
    pub rt: usize,
    /// Overlaps `rt`.
    pub imm16: u16,
    /// Overlaps `rd`, `rs`, `rt` and `imm16`.
    pub target: u32,
}

/// Sign extension 16 -> 32.
pub open spec fn spec_sign_extend16(x: u16) -> u32 {
    if x < 0x8000 {
        x as u32
    } else {
        (x as u32) | 0xFFFF_0000
    }
}

/// Sign extension 8 -> 32.
pub open spec fn spec_sign_extend8(x: u8) -> u32 {
    if x < 0x80 {
        x as u32
    } else {
        (x as u32) | 0xFFFF_FF00
    }
}

/// How a raw word decodes into fields.
pub open spec fn spec_decode(raw: u32) -> Instruction {
    Instruction {
        opcode: ((raw >> 26) & 0x3F) as u8,
        rd: ((raw >> 21) & 0x1F) as usize,
        rs: ((raw >> 16) & 0x1F) as usize,
        rt: ((raw >> 11) & 0x1F) as usize,
        imm16: (raw & 0xFFFF) as u16,
        target: raw & 0x03FF_FFFF,
    }
}

/// A 5-bit shift count is a valid u32 shift amount.
pub proof fn lemma_shift_mask(x: u32)
    by (bit_vector)
    ensures
        x & 0x1F < 32,
{
}

/// Register fields of a decoded word are register numbers.
pub proof fn lemma_decode_bounds(raw: u32)
    by (bit_vector)
    ensures
        (raw >> 26) & 0x3F < 64,
        (raw >> 21) & 0x1F < 32,
        (raw >> 16) & 0x1F < 32,
        (raw >> 11) & 0x1F < 32,
{
}

impl Instruction {
    pub fn nop() -> (i: Instruction)
        ensures
            i == (Instruction { opcode: OP_NOP, rd: 0, rs: 0, rt: 0, imm16: 0, target: 0 }),
    {
        Instruction { opcode: OP_NOP, rd: 0, rs: 0, rt: 0, imm16: 0, target: 0 }
    }

    /// Split a raw word into the field overlays.
    pub fn decode(raw: u32) -> (i: Instruction)
        ensures
            i == spec_decode(raw),
            i.rd < 32,
            i.rs < 32,
            i.rt < 32,
    {
        proof {
            lemma_decode_bounds(raw);
        }
        Instruction {
            opcode: ((raw >> 26) & 0x3F) as u8,
            rd: ((raw >> 21) & 0x1F) as usize,
            rs: ((raw >> 16) & 0x1F) as usize,
            rt: ((raw >> 11) & 0x1F) as usize,
            imm16: (raw & 0xFFFF) as u16,
            target: raw & 0x03FF_FFFF,
        }
    }
}

/// Shorthand for the wrapping operations all CPU arithmetic uses.
pub open spec fn w_add(a: u32, b: u32) -> u32 {
    vstd::wrapping::u32_specs::wrapping_add(a, b)
}

pub open spec fn w_shl(a: u32, sh: u32) -> u32 {
    vstd::wrapping::u32_specs::wrapping_shl(a, sh)
}

/// Executing one decoded, non-interrupted instruction: the new CPU state,
/// the new bus state, and the propagated bus error if a load or store
/// failed (in which case neither state changes). After every committed
/// instruction `regs[0]` is forced back to zero.
pub open spec fn spec_exec_instr(cpu: CpuView, bus: BusView, i: Instruction) -> (CpuView, BusView, Result<(), BusError>) {
    let rs_val = cpu.regs[i.rs as int];
    let rt_val = cpu.regs[i.rt as int];
    let rd_val = cpu.regs[i.rd as int];
    let pc4 = w_add(cpu.pc, 4);
    if i.opcode == OP_ADD {
        (alu_commit(cpu, i.rd, w_add(rs_val, rt_val)), bus, Ok(()))
    } else if i.opcode == OP_SUB {
        (alu_commit(cpu, i.rd, vstd::wrapping::u32_specs::wrapping_sub(rs_val, rt_val)), bus, Ok(()))
    } else if i.opcode == OP_AND {
        (alu_commit(cpu, i.rd, rs_val & rt_val), bus, Ok(()))
    } else if i.opcode == OP_OR {
        (alu_commit(cpu, i.rd, rs_val | rt_val), bus, Ok(()))
    } else if i.opcode == OP_XOR {
        (alu_commit(cpu, i.rd, rs_val ^ rt_val), bus, Ok(()))
    } else if i.opcode == OP_SLT {
        (alu_commit(cpu, i.rd, if (rs_val as i32) < (rt_val as i32) { 1 } else { 0 }), bus, Ok(()))
    } else if i.opcode == OP_SLTU {
        (alu_commit(cpu, i.rd, if rs_val < rt_val { 1 } else { 0 }), bus, Ok(()))
    } else if i.opcode == OP_SHL {
        (alu_commit(cpu, i.rd, w_shl(rs_val, rt_val & 0x1F)), bus, Ok(()))
    } else if i.opcode == OP_SHR {
        (alu_commit(cpu, i.rd, vstd::wrapping::u32_specs::wrapping_shr(rs_val, rt_val & 0x1F)), bus, Ok(()))
    } else if i.opcode == OP_SAR {
        (alu_commit(cpu, i.rd, ((rs_val as i32) >> (rt_val & 0x1F)) as u32), bus, Ok(()))
    } else if i.opcode == OP_ADDI {
        (alu_commit(cpu, i.rd, w_add(rs_val, spec_sign_extend16(i.imm16))), bus, Ok(()))
    } else if i.opcode == OP_ANDI {
        (alu_commit(cpu, i.rd, rs_val & (i.imm16 as u32)), bus, Ok(()))
    } else if i.opcode == OP_ORI {
        (alu_commit(cpu, i.rd, rs_val | (i.imm16 as u32)), bus, Ok(()))
    } else if i.opcode == OP_XORI {
        (alu_commit(cpu, i.rd, rs_val ^ (i.imm16 as u32)), bus, Ok(()))
    } else if i.opcode == OP_SLTI {
        (alu_commit(cpu, i.rd, if (rs_val as i32) < (spec_sign_extend16(i.imm16) as i32) { 1 } else { 0 }), bus, Ok(()))
    } else if i.opcode == OP_SLTIU {
        (alu_commit(cpu, i.rd, if rs_val < (i.imm16 as u32) { 1 } else { 0 }), bus, Ok(()))
    } else if i.opcode == OP_LUI {
        (alu_commit(cpu, i.rd, w_shl(i.imm16 as u32, 16)), bus, Ok(()))
    } else if i.opcode == OP_LW {
        let addr = w_add(rs_val, spec_sign_extend16(i.imm16));
        match spec_load32(bus, addr) {
            Ok(v) => (alu_commit(cpu, i.rd, v), bus, Ok(())),
            Err(e) => (cpu, bus, Err(e)),
        }
    } else if i.opcode == OP_SW {
        let addr = w_add(rs_val, spec_sign_extend16(i.imm16));
        let st = spec_store32(bus, addr, rd_val);
        match st.1 {
            Ok(u) => (
                CpuView { regs: cpu.regs.update(0, 0u32), pc: pc4, ..cpu },
                st.0,
                Ok(()),
            ),
            Err(e) => (cpu, bus, Err(e)),
        }
    } else if i.opcode == OP_LB {
        let addr = w_add(rs_val, spec_sign_extend16(i.imm16));
        match spec_load8(bus, addr) {
            Ok(b) => (alu_commit(cpu, i.rd, spec_sign_extend8(b)), bus, Ok(())),
            Err(e) => (cpu, bus, Err(e)),
        }
    } else if i.opcode == OP_SB {
        let addr = w_add(rs_val, spec_sign_extend16(i.imm16));
        let st = spec_store8(bus, addr, (rd_val & 0xFF) as u8);
        match st.1 {
            Ok(u) => (
                CpuView { regs: cpu.regs.update(0, 0u32), pc: pc4, ..cpu },
                st.0,
                Ok(()),
            ),
            Err(e) => (cpu, bus, Err(e)),
        }
    } else if i.opcode == OP_BEQ {
        (branch_commit(cpu, rd_val == rs_val, i.imm16), bus, Ok(()))
    } else if i.opcode == OP_BNE {
        (branch_commit(cpu, rd_val != rs_val, i.imm16), bus, Ok(()))
    } else if i.opcode == OP_BLT {
        (branch_commit(cpu, (rd_val as i32) < (rs_val as i32), i.imm16), bus, Ok(()))
    } else if i.opcode == OP_BGE {
        (branch_commit(cpu, (rd_val as i32) >= (rs_val as i32), i.imm16), bus, Ok(()))
    } else if i.opcode == OP_J {
        (
            CpuView {
                regs: cpu.regs.update(0, 0u32),
                pc: (cpu.pc & 0xF000_0000) | w_shl(i.target, 2),
                ..cpu
            },
            bus,
            Ok(()),
        )
    } else if i.opcode == OP_JAL {
        (
            CpuView {
                regs: cpu.regs.update(LINK_REGISTER as int, pc4).update(0, 0u32),
                pc: (cpu.pc & 0xF000_0000) | w_shl(i.target, 2),
                ..cpu
            },
            bus,
            Ok(()),
        )
    } else if i.opcode == OP_JR {
        (CpuView { regs: cpu.regs.update(0, 0u32), pc: rs_val, ..cpu }, bus, Ok(()))
    } else if i.opcode == OP_JALR {
        (
            CpuView { regs: cpu.regs.update(i.rd as int, pc4).update(0, 0u32), pc: rs_val, ..cpu },
            bus,
            Ok(()),
        )
    } else if i.opcode == OP_NOP {
        (CpuView { regs: cpu.regs.update(0, 0u32), pc: pc4, ..cpu }, bus, Ok(()))
    } else if i.opcode == OP_HALT {
        (CpuView { regs: cpu.regs.update(0, 0u32), halted: true, ..cpu }, bus, Ok(()))
    } else {
        // Illegal opcode: vector to the exception handler.
        (
            CpuView {
                regs: cpu.regs.update(0, 0u32),
                pc: EXCEPTION_VECTOR,
                epc: cpu.pc,
                cause: CAUSE_ILLEGAL_OP,
                ..cpu
            },
            bus,
            Ok(()),
        )
    }
}

/// Commit of an instruction that writes `rd` and falls through: the write,
/// then `regs[0]` forced back to zero.
pub open spec fn alu_commit(cpu: CpuView, rd: usize, value: u32) -> CpuView {
    CpuView {
        regs: cpu.regs.update(rd as int, value).update(0, 0u32),
        pc: w_add(cpu.pc, 4),
        ..cpu
    }
}

/// Commit of a conditional branch: taken means `pc + 4` plus the
/// sign-extended displacement in words.
pub open spec fn branch_commit(cpu: CpuView, taken: bool, imm16: u16) -> CpuView {
    CpuView {
        regs: cpu.regs.update(0, 0u32),
        pc: if taken {
            w_add(w_add(cpu.pc, 4), w_shl(spec_sign_extend16(imm16), 2))
        } else {
            w_add(cpu.pc, 4)
        },
        ..cpu
    }
}

/// One whole cycle: a halted CPU does nothing; a fetch error propagates
/// with nothing changed; a pending IRQ (priority timer1, timer2, UART)
/// enters the exception vector with the cause recorded and interrupts
/// disabled; otherwise the fetched instruction executes.
pub open spec fn spec_step(cpu: CpuView, bus: BusView, irq: IrqLines) -> (CpuView, BusView, Result<(), BusError>) {
    if cpu.halted {
        (cpu, bus, Ok(()))
    } else {
        match spec_load32(bus, cpu.pc) {
            Err(e) => (cpu, bus, Err(e)),
            Ok(raw) => {
                if irq.timer1 || irq.timer2 || irq.uart {
                    let cause = if irq.timer1 {
                        CAUSE_TIMER1_IRQ
                    } else if irq.timer2 {
                        CAUSE_TIMER2_IRQ
                    } else {
                        CAUSE_UART_IRQ
                    };
                    (
                        CpuView {
                            regs: cpu.regs.update(0, 0u32),
                            pc: EXCEPTION_VECTOR,
                            sr: cpu.sr & !SR_IE,
                            epc: cpu.pc,
                            cause: cause,
                            ..cpu
                        },
                        bus,
                        Ok(()),
                    )
                } else {
                    spec_exec_instr(cpu, bus, spec_decode(raw))
                }
            },
        }
    }
}

impl Default for Cpu {
    /// The reset state, as `Cpu::new` builds it.
    fn default() -> (c: Cpu)
        ensures
            c@.regs == Seq::new(32, |i: int| 0u32),
            c@.pc == RESET_VECTOR,
            c@.sr == 0,
            c@.epc == 0,
            c@.cause == 0,
            !c@.halted,
    {
        Cpu::new()
    }
}

impl Cpu {
    pub fn regs(&self) -> (r: &[u32; 32])
        ensures
            r@ == self@.regs,
    {
        &self.regs
    }

    pub fn pc(&self) -> (r: u32)
        ensures
            r == self@.pc,
    {
        self.pc
    }

    pub fn sr(&self) -> (r: u32)
        ensures
            r == self@.sr,
    {
        self.sr
    }

    pub fn epc(&self) -> (r: u32)
        ensures
            r == self@.epc,
    {
        self.epc
    }

    pub fn cause(&self) -> (r: u32)
        ensures
            r == self@.cause,
    {
        self.cause
    }

    pub fn halted(&self) -> (r: bool)
        ensures
            r == self@.halted,
    {
        self.halted
    }

    /// Reset state: all registers zero, execution at the reset vector.
    pub fn new() -> (c: Cpu)
        ensures
            c@.regs == Seq::new(32, |i: int| 0u32),
            c@.pc == RESET_VECTOR,
            c@.sr == 0,
            c@.epc == 0,
            c@.cause == 0,
            !c@.halted,
    {
        let c = Cpu { regs: [0; 32], pc: RESET_VECTOR, sr: 0, epc: 0, cause: 0, halted: false };
        proof {
            assert(c@.regs =~= Seq::new(32, |i: int| 0u32));
        }
        c
    }

    fn sign_extend_16(x: u16) -> (r: u32)
        ensures
            r == spec_sign_extend16(x),
    {
        if x < 0x8000 {
            x as u32
        } else {
            (x as u32) | 0xFFFF_0000
        }
    }

    fn sign_extend_8(x: u8) -> (r: u32)
        ensures
            r == spec_sign_extend8(x),
    {
        if x < 0x80 {
            x as u32
        } else {
            (x as u32) | 0xFFFF_FF00
        }
    }

    /// Advance by one cycle: exactly the transition `spec_step` describes.
    pub fn step(&mut self, bus: &mut NovaBus, irq: &IrqLines) -> (r: Result<(), BusError>)
        ensures
            final(self)@ == spec_step(old(self)@, old(bus)@, *irq).0,
            final(bus)@ == spec_step(old(self)@, old(bus)@, *irq).1,
            r == spec_step(old(self)@, old(bus)@, *irq).2,
    {
        if self.halted {
            return Ok(());
        }

        let mut next_regs = self.regs;
        let mut next_pc = self.pc;
        let mut next_sr = self.sr;
        let mut next_epc = self.epc;
        let mut next_cause = self.cause;
        let mut next_halted = self.halted;

        // Fetch.
        let raw = match bus.load32(self.pc) {
            Ok(w) => w,
            Err(e) => { return Err(e); },
        };

        // Decode.
        let instr = Instruction::decode(raw);

        // Interrupt check: delivered after fetch, before execute, in fixed
        // priority order, whether or not SR.IE is set.
        if irq.timer1 || irq.timer2 || irq.uart {
            next_epc = self.pc;
            next_cause = if irq.timer1 {
                CAUSE_TIMER1_IRQ
            } else if irq.timer2 {
                CAUSE_TIMER2_IRQ
            } else {
                CAUSE_UART_IRQ
            };
            next_pc = EXCEPTION_VECTOR;
            next_sr = self.sr & !SR_IE;
        } else if instr.opcode == OP_ADD {
            next_regs[instr.rd] = self.regs[instr.rs].wrapping_add(self.regs[instr.rt]);
            next_pc = next_pc.wrapping_add(4);
        } else if instr.opcode == OP_SUB {
            next_regs[instr.rd] = self.regs[instr.rs].wrapping_sub(self.regs[instr.rt]);
            next_pc = next_pc.wrapping_add(4);
        } else if instr.opcode == OP_AND {
            next_regs[instr.rd] = self.regs[instr.rs] & self.regs[instr.rt];
            next_pc = next_pc.wrapping_add(4);
        } else if instr.opcode == OP_OR {
            next_regs[instr.rd] = self.regs[instr.rs] | self.regs[instr.rt];
            next_pc = next_pc.wrapping_add(4);
        } else if instr.opcode == OP_XOR {
            next_regs[instr.rd] = self.regs[instr.rs] ^ self.regs[instr.rt];
            next_pc = next_pc.wrapping_add(4);
        } else if instr.opcode == OP_SLT {
            let v: u32 = if (self.regs[instr.rs] as i32) < (self.regs[instr.rt] as i32) {
                1
            } else {
                0
            };
            next_regs[instr.rd] = v;
            next_pc = next_pc.wrapping_add(4);
        } else if instr.opcode == OP_SLTU {
            let v: u32 = if self.regs[instr.rs] < self.regs[instr.rt] { 1 } else { 0 };
            next_regs[instr.rd] = v;
            next_pc = next_pc.wrapping_add(4);
        } else if instr.opcode == OP_SHL {
            next_regs[instr.rd] = self.regs[instr.rs].wrapping_shl(self.regs[instr.rt] & 0x1F);
            next_pc = next_pc.wrapping_add(4);
        } else if instr.opcode == OP_SHR {
            next_regs[instr.rd] = self.regs[instr.rs].wrapping_shr(self.regs[instr.rt] & 0x1F);
            next_pc = next_pc.wrapping_add(4);
        } else if instr.opcode == OP_SAR {
            let sh = self.regs[instr.rt] & 0x1F;
            proof {
                lemma_shift_mask(self.regs@[instr.rt as int]);
            }
            next_regs[instr.rd] = ((self.regs[instr.rs] as i32) >> sh) as u32;
            next_pc = next_pc.wrapping_add(4);
        } else if instr.opcode == OP_ADDI {
            let imm = Self::sign_extend_16(instr.imm16);
            next_regs[instr.rd] = self.regs[instr.rs].wrapping_add(imm);
            next_pc = next_pc.wrapping_add(4);
        } else if instr.opcode == OP_ANDI {
            next_regs[instr.rd] = self.regs[instr.rs] & (instr.imm16 as u32);
            next_pc = next_pc.wrapping_add(4);
        } else if instr.opcode == OP_ORI {
            next_regs[instr.rd] = self.regs[instr.rs] | (instr.imm16 as u32);
            next_pc = next_pc.wrapping_add(4);
        } else if instr.opcode == OP_XORI {
            next_regs[instr.rd] = self.regs[instr.rs] ^ (instr.imm16 as u32);
            next_pc = next_pc.wrapping_add(4);
        } else if instr.opcode == OP_SLTI {
            let imm = Self::sign_extend_16(instr.imm16);
            let v: u32 = if (self.regs[instr.rs] as i32) < (imm as i32) { 1 } else { 0 };
            next_regs[instr.rd] = v;
            next_pc = next_pc.wrapping_add(4);
        } else if instr.opcode == OP_SLTIU {
            let v: u32 = if self.regs[instr.rs] < (instr.imm16 as u32) { 1 } else { 0 };
            next_regs[instr.rd] = v;
            next_pc = next_pc.wrapping_add(4);
        } else if instr.opcode == OP_LUI {
            next_regs[instr.rd] = (instr.imm16 as u32).wrapping_shl(16);
            next_pc = next_pc.wrapping_add(4);
        } else if instr.opcode == OP_LW {
            let imm = Self::sign_extend_16(instr.imm16);
            let addr = self.regs[instr.rs].wrapping_add(imm);
            let value = match bus.load32(addr) {
                Ok(v) => v,
                Err(e) => { return Err(e); },
            };
            next_regs[instr.rd] = value;
            next_pc = next_pc.wrapping_add(4);
        } else if instr.opcode == OP_SW {
            let imm = Self::sign_extend_16(instr.imm16);
            let addr = self.regs[instr.rs].wrapping_add(imm);
            match bus.store32(addr, self.regs[instr.rd]) {
                Ok(u) => {},
                Err(e) => { return Err(e); },
            }
            next_pc = next_pc.wrapping_add(4);
        } else if instr.opcode == OP_LB {
            let imm = Self::sign_extend_16(instr.imm16);
            let addr = self.regs[instr.rs].wrapping_add(imm);
            let byte = match bus.load8(addr) {
                Ok(v) => v,
                Err(e) => { return Err(e); },
            };
            next_regs[instr.rd] = Self::sign_extend_8(byte);
            next_pc = next_pc.wrapping_add(4);
        } else if instr.opcode == OP_SB {
            let imm = Self::sign_extend_16(instr.imm16);
            let addr = self.regs[instr.rs].wrapping_add(imm);
            match bus.store8(addr, (self.regs[instr.rd] & 0xFF) as u8) {
                Ok(u) => {},
                Err(e) => { return Err(e); },
            }
            next_pc = next_pc.wrapping_add(4);
        } else if instr.opcode == OP_BEQ {
            if self.regs[instr.rd] == self.regs[instr.rs] {
                let imm = Self::sign_extend_16(instr.imm16);
                next_pc = next_pc.wrapping_add(4).wrapping_add(imm.wrapping_shl(2));
            } else {
                next_pc = next_pc.wrapping_add(4);
            }
        } else if instr.opcode == OP_BNE {
            if self.regs[instr.rd] != self.regs[instr.rs] {
                let imm = Self::sign_extend_16(instr.imm16);
                next_pc = next_pc.wrapping_add(4).wrapping_add(imm.wrapping_shl(2));
            } else {
                next_pc = next_pc.wrapping_add(4);
            }
        } else if instr.opcode == OP_BLT {
            if (self.regs[instr.rd] as i32) < (self.regs[instr.rs] as i32) {
                let imm = Self::sign_extend_16(instr.imm16);
                next_pc = next_pc.wrapping_add(4).wrapping_add(imm.wrapping_shl(2));
            } else {
                next_pc = next_pc.wrapping_add(4);
            }
        } else if instr.opcode == OP_BGE {
            if (self.regs[instr.rd] as i32) >= (self.regs[instr.rs] as i32) {
                let imm = Self::sign_extend_16(instr.imm16);
                next_pc = next_pc.wrapping_add(4).wrapping_add(imm.wrapping_shl(2));
            } else {
                next_pc = next_pc.wrapping_add(4);
            }
        } else if instr.opcode == OP_J {
            next_pc = (next_pc & 0xF000_0000) | instr.target.wrapping_shl(2);
        } else if instr.opcode == OP_JAL {
            next_regs[LINK_REGISTER] = next_pc.wrapping_add(4);
            next_pc = (next_pc & 0xF000_0000) | instr.target.wrapping_shl(2);
        } else if instr.opcode == OP_JR {
            next_pc = self.regs[instr.rs];
        } else if instr.opcode == OP_JALR {
            next_regs[instr.rd] = next_pc.wrapping_add(4);
            next_pc = self.regs[instr.rs];
        } else if instr.opcode == OP_NOP {
            next_pc = next_pc.wrapping_add(4);
        } else if instr.opcode == OP_HALT {
            next_halted = true;
        } else {
            next_epc = self.pc;
            next_cause = CAUSE_ILLEGAL_OP;
            next_pc = EXCEPTION_VECTOR;
        }

        // Writeback invariant: r0 always reads as zero.
        next_regs[0] = 0;

        // Commit.
        self.regs = next_regs;
        self.pc = next_pc;
        self.sr = next_sr;
        self.epc = next_epc;
        self.cause = next_cause;
        self.halted = next_halted;

        Ok(())
    }
}

/// Opcodes that neither jump nor branch nor raise an exception: plain ALU
/// work, loads and stores, and NOP.
pub open spec fn is_straight_line_op(op: u8) -> bool {
    ||| op == OP_ADD
    ||| op == OP_SUB
    ||| op == OP_AND
    ||| op == OP_OR
    ||| op == OP_XOR
    ||| op == OP_SLT
    ||| op == OP_SLTU
    ||| op == OP_SHL
    ||| op == OP_SHR
    ||| op == OP_SAR
    ||| op == OP_ADDI
    ||| op == OP_ANDI
    ||| op == OP_ORI
    ||| op == OP_XORI
    ||| op == OP_SLTI
    ||| op == OP_SLTIU
    ||| op == OP_LUI
    ||| op == OP_LW
    ||| op == OP_SW
    ||| op == OP_LB
    ||| op == OP_SB
    ||| op == OP_NOP
}

/// Whether a branch instruction's condition holds: the `rd` field names the
/// first operand and `rs` the second; BLT and BGE compare signed.
pub open spec fn spec_branch_taken(cpu: CpuView, i: Instruction) -> bool {
    let rd_val = cpu.regs[i.rd as int];
    let rs_val = cpu.regs[i.rs as int];
    if i.opcode == OP_BEQ {
        rd_val == rs_val
    } else if i.opcode == OP_BNE {
        rd_val != rs_val
    } else if i.opcode == OP_BLT {
        (rd_val as i32) < (rs_val as i32)
    } else {
        (rd_val as i32) >= (rs_val as i32)
    }
}

/// Law: a step never leaves a value in register zero. Whatever the cycle
/// does — idle, fetch fault, interrupt entry or any instruction — `regs[0]`
/// reads as zero afterwards, given that it did before.
#[verifier::rlimit(60)]
pub proof fn lemma_step_r0_zero(cpu: CpuView, bus: BusView, irq: IrqLines)
    requires
        cpu.regs.len() == 32,
        cpu.regs[0] == 0,
    ensures
        spec_step(cpu, bus, irq).0.regs[0] == 0,
        spec_step(cpu, bus, irq).0.regs.len() == 32,
{
    if !cpu.halted {
        match spec_load32(bus, cpu.pc) {
            Ok(raw) => {
                if !(irq.timer1 || irq.timer2 || irq.uart) {
                    let i = spec_decode(raw);
                    lemma_decode_bounds(raw);
                    assert(spec_exec_instr(cpu, bus, i).0.regs[0] == 0);
                }
            },
            Err(e) => {},
        }
    }
}

/// Law: every non-jump, non-branch instruction that commits without an
/// exception advances the program counter by exactly 4.
pub proof fn lemma_step_pc_advances_by_4(cpu: CpuView, bus: BusView, irq: IrqLines, raw: u32)
    requires
        !cpu.halted,
        !irq.timer1,
        !irq.timer2,
        !irq.uart,
        spec_load32(bus, cpu.pc) == Ok::<u32, BusError>(raw),
        is_straight_line_op(spec_decode(raw).opcode),
        spec_step(cpu, bus, irq).2 is Ok,
    ensures
        spec_step(cpu, bus, irq).0.pc == w_add(cpu.pc, 4),
{
}

/// The signed value of a 16-bit immediate.
pub open spec fn sign16_val(x: u16) -> int {
    if x < 0x8000 {
        x as int
    } else {
        x as int - 0x10000
    }
}

/// A taken branch's program counter, worked out in plain integers.
proof fn lemma_branch_pc_arith(pc: u32, imm: u16)
    by (bit_vector)
    ensures
        w_add(w_add(pc, 4), w_shl(spec_sign_extend16(imm), 2)) == ((pc as int) + 4 + 4
            * sign16_val(imm)) % 0x1_0000_0000,
{
}

/// Law: a taken branch with displacement `d` (the signed value of the
/// immediate) lands on `PC + 4 + 4·d`, wrapping mod 2^32; a branch not
/// taken falls through to `PC + 4`.
pub proof fn lemma_step_branch_target(cpu: CpuView, bus: BusView, irq: IrqLines, raw: u32)
    requires
        !cpu.halted,
        !irq.timer1,
        !irq.timer2,
        !irq.uart,
        spec_load32(bus, cpu.pc) == Ok::<u32, BusError>(raw),
        spec_decode(raw).opcode == OP_BEQ || spec_decode(raw).opcode == OP_BNE
            || spec_decode(raw).opcode == OP_BLT || spec_decode(raw).opcode == OP_BGE,
    ensures
        spec_branch_taken(cpu, spec_decode(raw)) ==> spec_step(cpu, bus, irq).0.pc == ((cpu.pc
            as int) + 4 + 4 * sign16_val(spec_decode(raw).imm16)) % 0x1_0000_0000,
        !spec_branch_taken(cpu, spec_decode(raw)) ==> spec_step(cpu, bus, irq).0.pc == w_add(
            cpu.pc,
            4,
        ),
{
    lemma_branch_pc_arith(cpu.pc, spec_decode(raw).imm16);
}

/// Law: a jump stays in the current 256 MiB region and lands aligned — the
/// top four bits of the program counter are kept and the low two are zero.
/// JAL also links `PC + 4` into register 31.
pub proof fn lemma_step_jump_target(cpu: CpuView, bus: BusView, irq: IrqLines, raw: u32)
    requires
        cpu.regs.len() == 32,
        !cpu.halted,
        !irq.timer1,
        !irq.timer2,
        !irq.uart,
        spec_load32(bus, cpu.pc) == Ok::<u32, BusError>(raw),
        spec_decode(raw).opcode == OP_J || spec_decode(raw).opcode == OP_JAL,
    ensures
        spec_step(cpu, bus, irq).0.pc >> 28 == cpu.pc >> 28,
        spec_step(cpu, bus, irq).0.pc & 3 == 0,
        spec_decode(raw).opcode == OP_JAL ==> spec_step(cpu, bus, irq).0.regs[31] == w_add(
            cpu.pc,
            4,
        ),
{
    let t = raw & 0x03FF_FFFF;
    let pc = cpu.pc;
    assert(((pc & 0xF000_0000) | (t << 2)) >> 28 == pc >> 28 && ((pc & 0xF000_0000) | (t << 2))
        & 3 == 0) by (bit_vector)
        requires
            t == raw & 0x03FF_FFFF,
    ;
}

} // verus!
