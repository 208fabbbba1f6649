//! ISA tables: opcode and exception-cause constants, and the mnemonic of
//! each opcode.

use vstd::prelude::*;

verus! {

// Exception / interrupt cause codes.
pub const CAUSE_ILLEGAL_OP: u32 = 0x00;
pub const CAUSE_MISALIGNED_ACCESS: u32 = 0x01;
pub const CAUSE_DIVIDE_BY_ZERO: u32 = 0x02;
pub const CAUSE_BREAKPOINT: u32 = 0x03;
pub const CAUSE_SYSTEM_CALL: u32 = 0x04;
pub const CAUSE_TIMER1_IRQ: u32 = 0x100;
pub const CAUSE_TIMER2_IRQ: u32 = 0x101;
pub const CAUSE_UART_IRQ: u32 = 0x102;

// ALU register operations.
pub const OP_ADD: u8 = 0x00;
pub const OP_SUB: u8 = 0x01;
pub const OP_AND: u8 = 0x02;
pub const OP_OR: u8 = 0x03;
pub const OP_XOR: u8 = 0x04;
pub const OP_SLT: u8 = 0x05;
pub const OP_SLTU: u8 = 0x06;
pub const OP_SHL: u8 = 0x07;
pub const OP_SHR: u8 = 0x08;
pub const OP_SAR: u8 = 0x09;

// ALU immediate operations.
pub const OP_ADDI: u8 = 0x10;
pub const OP_ANDI: u8 = 0x11;
pub const OP_ORI: u8 = 0x12;
pub const OP_XORI: u8 = 0x13;
pub const OP_SLTI: u8 = 0x14;
pub const OP_SLTIU: u8 = 0x15;
pub const OP_LUI: u8 = 0x16;

// Loads and stores.
pub const OP_LW: u8 = 0x18;
pub const OP_SW: u8 = 0x19;
pub const OP_LB: u8 = 0x1A;
pub const OP_SB: u8 = 0x1B;

// Branches.
pub const OP_BEQ: u8 = 0x20;
pub const OP_BNE: u8 = 0x21;
pub const OP_BLT: u8 = 0x22;
pub const OP_BGE: u8 = 0x23;

// Jumps and calls.
pub const OP_J: u8 = 0x28;
pub const OP_JAL: u8 = 0x29;
pub const OP_JR: u8 = 0x2A;
pub const OP_JALR: u8 = 0x2B;

// System / misc.
pub const OP_NOP: u8 = 0x3E;
pub const OP_HALT: u8 = 0x3F;

/// The mnemonic of each opcode, as the assembler spells it.
pub open spec fn spec_op_str(op: u8) -> Seq<char> {
    if op == OP_ADD { "ADD"@ }
    else if op == OP_SUB { "SUB"@ }
    else if op == OP_AND { "AND"@ }
    else if op == OP_OR { "OR"@ }
    else if op == OP_XOR { "XOR"@ }
    else if op == OP_SLT { "SLT"@ }
    else if op == OP_SLTU { "SLTU"@ }
    else if op == OP_SHL { "SHL"@ }
    else if op == OP_SHR { "SHR"@ }
    else if op == OP_SAR { "SAR"@ }
    else if op == OP_ADDI { "ADDI"@ }
    else if op == OP_ANDI { "ANDI"@ }
    else if op == OP_ORI { "ORI"@ }
    else if op == OP_XORI { "XORI"@ }
    else if op == OP_SLTI { "SLTI"@ }
    else if op == OP_SLTIU { "SLTIU"@ }
    else if op == OP_LUI { "LUI"@ }
    else if op == OP_LW { "LW"@ }
    else if op == OP_SW { "SW"@ }
    else if op == OP_LB { "LB"@ }
    else if op == OP_SB { "SB"@ }
    else if op == OP_BEQ { "BEQ"@ }
    else if op == OP_BNE { "BNE"@ }
    else if op == OP_BLT { "BLT"@ }
    else if op == OP_BGE { "BGE"@ }
    else if op == OP_J { "J"@ }
    else if op == OP_JAL { "JAL"@ }
    else if op == OP_JR { "JR"@ }
    else if op == OP_JALR { "JALR"@ }
    else if op == OP_NOP { "NOP"@ }
    else if op == OP_HALT { "HALT"@ }
    else { "UNKNOWN"@ }
}

/// Mnemonic lookup used by diagnostics.
pub fn op_str(op: u8) -> (r: &'static str)
    ensures
        r@ == spec_op_str(op),
{
    if op == OP_ADD { "ADD" }
    else if op == OP_SUB { "SUB" }
    else if op == OP_AND { "AND" }
    else if op == OP_OR { "OR" }
    else if op == OP_XOR { "XOR" }
    else if op == OP_SLT { "SLT" }
    else if op == OP_SLTU { "SLTU" }
    else if op == OP_SHL { "SHL" }
    else if op == OP_SHR { "SHR" }
    else if op == OP_SAR { "SAR" }
    else if op == OP_ADDI { "ADDI" }
    else if op == OP_ANDI { "ANDI" }
    else if op == OP_ORI { "ORI" }
    else if op == OP_XORI { "XORI" }
    else if op == OP_SLTI { "SLTI" }
    else if op == OP_SLTIU { "SLTIU" }
    else if op == OP_LUI { "LUI" }
    else if op == OP_LW { "LW" }
    else if op == OP_SW { "SW" }
    else if op == OP_LB { "LB" }
    else if op == OP_SB { "SB" }
    else if op == OP_BEQ { "BEQ" }
    else if op == OP_BNE { "BNE" }
    else if op == OP_BLT { "BLT" }
    else if op == OP_BGE { "BGE" }
    else if op == OP_J { "J" }
    else if op == OP_JAL { "JAL" }
    else if op == OP_JR { "JR" }
    else if op == OP_JALR { "JALR" }
    else if op == OP_NOP { "NOP" }
    else if op == OP_HALT { "HALT" }
    else { "UNKNOWN" }
}

} // verus!
