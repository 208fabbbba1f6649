//! Two-pass assembler: lexing, parsing, label resolution, instruction
//! encoding and segment assembly, from UTF-8 source text to the segment
//! list the NV32 writer takes.

use vstd::prelude::*;
use crate::asmtext::{
    all_digits, all_hex_digits, bytes_eq, dec_val, find_byte, hex_val, parse_dec_u32,
    parse_hex_u32, spec_find, spec_lower, spec_trim, sub_vec, to_lower, trim,
};
use vstd::string::StringSliceAdditionalSpecFns;
use crate::isa::{
    OP_ADD, OP_SUB, OP_AND, OP_OR, OP_XOR, OP_SLT, OP_SLTU, OP_SHL, OP_SHR, OP_SAR, OP_ADDI,
    OP_ANDI, OP_ORI, OP_XORI, OP_SLTI, OP_SLTIU, OP_LUI, OP_LW, OP_SW, OP_LB, OP_SB, OP_BEQ,
    OP_BNE, OP_BLT, OP_BGE, OP_J, OP_JAL, OP_JR, OP_JALR, OP_NOP, OP_HALT,
};
use crate::nv32::{NvSegment, SegmentKind, SegView, seg_wf};

verus! {

/// Assembly errors, each carrying the text it stumbled over.
#[derive(Debug, Clone, PartialEq, Eq)]
pub enum AsmError {
    LexError(Vec<u8>),
    ParseError(Vec<u8>),
    UnknownLabel(Vec<u8>),
    InvalidRegister(Vec<u8>),
    InvalidImmediate(Vec<u8>),
}

/// An immediate term: a resolved value, a name to look up whole, or the
/// high or low half of a name's address.
#[derive(Debug, Clone, PartialEq, Eq)]
pub enum Imm {
    Value(i16),
    Label(Vec<u8>),
    LabelHi(Vec<u8>),
    LabelLo(Vec<u8>),
}

/// An error as contracts see it: the kind and the text, as a byte
/// sequence.
#[verifier::ext_equal]
pub ghost enum AsmErrorV {
    LexError(Seq<u8>),
    ParseError(Seq<u8>),
    UnknownLabel(Seq<u8>),
    InvalidRegister(Seq<u8>),
    InvalidImmediate(Seq<u8>),
}

impl View for AsmError {
    type V = AsmErrorV;

    open spec fn view(&self) -> AsmErrorV {
        match self {
            AsmError::LexError(t) => AsmErrorV::LexError(t@),
            AsmError::ParseError(t) => AsmErrorV::ParseError(t@),
            AsmError::UnknownLabel(t) => AsmErrorV::UnknownLabel(t@),
            AsmError::InvalidRegister(t) => AsmErrorV::InvalidRegister(t@),
            AsmError::InvalidImmediate(t) => AsmErrorV::InvalidImmediate(t@),
        }
    }
}

/// An immediate term as contracts see it.
#[verifier::ext_equal]
pub ghost enum ImmV {
    Value(i16),
    Label(Seq<u8>),
    LabelHi(Seq<u8>),
    LabelLo(Seq<u8>),
}

impl View for Imm {
    type V = ImmV;

    open spec fn view(&self) -> ImmV {
        match self {
            Imm::Value(v) => ImmV::Value(*v),
            Imm::Label(n) => ImmV::Label(n@),
            Imm::LabelHi(n) => ImmV::LabelHi(n@),
            Imm::LabelLo(n) => ImmV::LabelLo(n@),
        }
    }
}

/// A name table as contracts see it: names as byte sequences, later
/// entries shadowing earlier ones.
pub open spec fn tbl_view(t: Seq<(Vec<u8>, u32)>) -> Seq<(Seq<u8>, u32)> {
    t.map_values(|e: (Vec<u8>, u32)| (e.0@, e.1))
}

pub open spec fn spec_lookup(entries: Seq<(Seq<u8>, u32)>, name: Seq<u8>) -> Option<u32>
    decreases entries.len(),
{
    if entries.len() == 0 {
        None
    } else if entries.last().0 == name {
        Some(entries.last().1)
    } else {
        spec_lookup(entries.drop_last(), name)
    }
}

/// Look a name up, newest entry first.
pub fn lookup(entries: &Vec<(Vec<u8>, u32)>, name: &[u8]) -> (r: Option<u32>)
    ensures
        r == spec_lookup(tbl_view(entries@), name@),
{
    let ghost tv = tbl_view(entries@);
    proof {
        assert(tv.take(tv.len() as int) =~= tv);
    }
    let mut i = entries.len();
    while i > 0
        invariant
            0 <= i <= entries@.len(),
            tv == tbl_view(entries@),
            spec_lookup(tv, name@) == spec_lookup(tv.take(i as int), name@),
        decreases i,
    {
        i = i - 1;
        proof {
            assert(tv.take(i as int + 1).drop_last() =~= tv.take(i as int));
            assert(tv.take(i as int + 1).last() == (entries@[i as int].0@, entries@[i as int].1));
        }
        let hit = bytes_eq(entries[i].0.as_slice(), name);
        if hit {
            return Some(entries[i].1);
        }
    }
    None
}

/// A 16-bit pattern reinterpreted as two's-complement.
pub open spec fn as_i16_raw(x: int) -> i16 {
    if x < 0x8000 {
        x as i16
    } else {
        (x - 0x10000) as i16
    }
}

/// What a register token means: `r`/`R`, then a decimal number below 32.
pub open spec fn spec_parse_reg(s: Seq<u8>) -> Option<u8> {
    let t = spec_trim(s);
    if t.len() >= 1 && (t[0] == 114 || t[0] == 82) {
        let d = t.drop_first();
        if all_digits(d) && dec_val(d) < 32 {
            Some(dec_val(d) as u8)
        } else {
            None
        }
    } else {
        None
    }
}

/// Parse a register token.
pub fn parse_reg(s: &[u8]) -> (r: Result<u8, AsmError>)
    ensures
        match r {
            Ok(v) => spec_parse_reg(s@) == Some(v),
            Err(e) => spec_parse_reg(s@) is None && (e matches AsmError::InvalidRegister(t)
                && t@ == spec_trim(s@)),
        },
{
    let t = trim(s);
    if t.len() == 0 || !(t[0] == 114 || t[0] == 82) {
        return Err(AsmError::InvalidRegister(t));
    }
    let digits = sub_vec(t.as_slice(), 1, t.len());
    proof {
        assert(digits@ =~= spec_trim(s@).drop_first());
    }
    match parse_dec_u32(digits.as_slice()) {
        Some(v) if v < 32 => Ok(v as u8),
        _ => Err(AsmError::InvalidRegister(t)),
    }
}

/// What a 16-bit immediate token means. `0x…` is a raw 16-bit pattern,
/// `-0x…` a negated magnitude, and a decimal is signed; each must fit.
pub open spec fn spec_parse_imm(s: Seq<u8>) -> Option<i16> {
    let t = spec_trim(s);
    if t.len() >= 2 && t[0] == 48 && t[1] == 120 {
        let h = t.skip(2);
        if all_hex_digits(h) && hex_val(h) <= 0xFFFF {
            Some(as_i16_raw(hex_val(h) as int))
        } else {
            None
        }
    } else if t.len() >= 3 && t[0] == 45 && t[1] == 48 && t[2] == 120 {
        let h = t.skip(3);
        if all_hex_digits(h) && hex_val(h) <= 0x8000 {
            Some((-(hex_val(h) as int)) as i16)
        } else {
            None
        }
    } else if t.len() >= 1 && t[0] == 45 {
        let d = t.drop_first();
        if all_digits(d) && dec_val(d) <= 0x8000 {
            Some((-(dec_val(d) as int)) as i16)
        } else {
            None
        }
    } else {
        if all_digits(t) && dec_val(t) <= 0x7FFF {
            Some(dec_val(t) as i16)
        } else {
            None
        }
    }
}

/// Parse a 16-bit immediate token.
pub fn parse_imm(s: &[u8]) -> (r: Result<i16, AsmError>)
    ensures
        match r {
            Ok(v) => spec_parse_imm(s@) == Some(v),
            Err(e) => spec_parse_imm(s@) is None && (e matches AsmError::InvalidImmediate(t)
                && t@ == spec_trim(s@)),
        },
{
    let t = trim(s);
    let n = t.len();
    if n >= 2 && t[0] == 48 && t[1] == 120 {
        let h = sub_vec(t.as_slice(), 2, n);
        proof {
            assert(h@ =~= spec_trim(s@).skip(2));
        }
        match parse_hex_u32(h.as_slice()) {
            Some(v) if v <= 0xFFFF => {
                if v < 0x8000 {
                    Ok(v as i16)
                } else {
                    Ok((v as i32 - 0x10000) as i16)
                }
            },
            _ => Err(AsmError::InvalidImmediate(t)),
        }
    } else if n >= 3 && t[0] == 45 && t[1] == 48 && t[2] == 120 {
        let h = sub_vec(t.as_slice(), 3, n);
        proof {
            assert(h@ =~= spec_trim(s@).skip(3));
        }
        match parse_hex_u32(h.as_slice()) {
            Some(v) if v <= 0x8000 => Ok((-(v as i32)) as i16),
            _ => Err(AsmError::InvalidImmediate(t)),
        }
    } else if n >= 1 && t[0] == 45 {
        let d = sub_vec(t.as_slice(), 1, n);
        proof {
            assert(d@ =~= spec_trim(s@).drop_first());
        }
        match parse_dec_u32(d.as_slice()) {
            Some(v) if v <= 0x8000 => Ok((-(v as i32)) as i16),
            _ => Err(AsmError::InvalidImmediate(t)),
        }
    } else {
        match parse_dec_u32(t.as_slice()) {
            Some(v) if v <= 0x7FFF => Ok(v as i16),
            _ => Err(AsmError::InvalidImmediate(t)),
        }
    }
}

/// What a character literal means: exactly `'c'` for a single byte `c`.
pub open spec fn spec_parse_char_literal(s: Seq<u8>) -> Option<u8> {
    let t = spec_trim(s);
    if t.len() == 3 && t[0] == 39 && t[2] == 39 {
        Some(t[1])
    } else {
        None
    }
}

/// Parse a character literal.
pub fn parse_char_literal(s: &[u8]) -> (r: Option<u8>)
    ensures
        r == spec_parse_char_literal(s@),
{
    let t = trim(s);
    if t.len() == 3 && t[0] == 39 && t[2] == 39 {
        Some(t[1])
    } else {
        None
    }
}

/// What a bare 32-bit numeric literal means: `0x`/`0X` hex, or decimal.
pub open spec fn spec_parse_u32_literal(s: Seq<u8>) -> Option<u32> {
    let t = spec_trim(s);
    if t.len() >= 2 && t[0] == 48 && (t[1] == 120 || t[1] == 88) {
        let h = t.skip(2);
        if all_hex_digits(h) && hex_val(h) <= u32::MAX {
            Some(hex_val(h) as u32)
        } else {
            None
        }
    } else {
        if all_digits(t) && dec_val(t) <= u32::MAX {
            Some(dec_val(t) as u32)
        } else {
            None
        }
    }
}

/// Parse a bare 32-bit numeric literal.
pub fn parse_u32_literal(s: &[u8]) -> (r: Result<u32, AsmError>)
    ensures
        match r {
            Ok(v) => spec_parse_u32_literal(s@) == Some(v),
            Err(e) => spec_parse_u32_literal(s@) is None && (e matches AsmError::InvalidImmediate(
                t,
            ) && t@ == spec_trim(s@)),
        },
{
    let t = trim(s);
    let n = t.len();
    if n >= 2 && t[0] == 48 && (t[1] == 120 || t[1] == 88) {
        let h = sub_vec(t.as_slice(), 2, n);
        proof {
            assert(h@ =~= spec_trim(s@).skip(2));
        }
        match parse_hex_u32(h.as_slice()) {
            Some(v) => Ok(v),
            None => Err(AsmError::InvalidImmediate(t)),
        }
    } else {
        match parse_dec_u32(t.as_slice()) {
            Some(v) => Ok(v),
            None => Err(AsmError::InvalidImmediate(t)),
        }
    }
}

/// What a `.org`/`.bss` operand means: a known name, else a `0x`-hex or
/// decimal 32-bit value.
pub open spec fn spec_parse_u32(s: Seq<u8>, equates: Seq<(Seq<u8>, u32)>) -> Option<u32> {
    let t = spec_trim(s);
    if spec_lookup(equates, t) is Some {
        spec_lookup(equates, t)
    } else if t.len() >= 2 && t[0] == 48 && t[1] == 120 {
        let h = t.skip(2);
        if all_hex_digits(h) && hex_val(h) <= u32::MAX {
            Some(hex_val(h) as u32)
        } else {
            None
        }
    } else {
        if all_digits(t) && dec_val(t) <= u32::MAX {
            Some(dec_val(t) as u32)
        } else {
            None
        }
    }
}

/// Parse a `.org`/`.bss` operand against the equate table.
pub fn parse_u32(s: &[u8], equates: &Vec<(Vec<u8>, u32)>) -> (r: Result<u32, AsmError>)
    ensures
        match r {
            Ok(v) => spec_parse_u32(s@, tbl_view(equates@)) == Some(v),
            Err(e) => spec_parse_u32(s@, tbl_view(equates@)) is None && (e matches AsmError::InvalidImmediate(
                t,
            ) && t@ == spec_trim(s@)),
        },
{
    let t = trim(s);
    if let Some(v) = lookup(equates, t.as_slice()) {
        return Ok(v);
    }
    let n = t.len();
    if n >= 2 && t[0] == 48 && t[1] == 120 {
        let h = sub_vec(t.as_slice(), 2, n);
        proof {
            assert(h@ =~= spec_trim(s@).skip(2));
        }
        match parse_hex_u32(h.as_slice()) {
            Some(v) => Ok(v),
            None => Err(AsmError::InvalidImmediate(t)),
        }
    } else {
        match parse_dec_u32(t.as_slice()) {
            Some(v) => Ok(v),
            None => Err(AsmError::InvalidImmediate(t)),
        }
    }
}

/// The assembler's instruction representation: one tagged item per final
/// encoded word, produced by the first pass.
#[derive(Debug, Clone, PartialEq, Eq)]
pub enum Instruction {
    // Loads / stores: OP rd, imm(rs)
    Sb { rd: u8, base: u8, imm: Imm },
    Sw { rd: u8, base: u8, imm: Imm },
    Lw { rd: u8, base: u8, imm: Imm },
    Lb { rd: u8, base: u8, imm: Imm },
    // ALU register ops: rd = rd OP rs
    Add { rd: u8, rs: u8 },
    Sub { rd: u8, rs: u8 },
    And { rd: u8, rs: u8 },
    Or { rd: u8, rs: u8 },
    Xor { rd: u8, rs: u8 },
    Slt { rd: u8, rs: u8 },
    Sltu { rd: u8, rs: u8 },
    Shl { rd: u8, rs: u8 },
    Shr { rd: u8, rs: u8 },
    Sar { rd: u8, rs: u8 },
    // ALU immediates: OP rd, rs, imm
    Addi { rd: u8, rs: u8, imm: Imm },
    Andi { rd: u8, rs: u8, imm: Imm },
    Ori { rd: u8, rs: u8, imm: Imm },
    Xori { rd: u8, rs: u8, imm: Imm },
    Slti { rd: u8, rs: u8, imm: Imm },
    Sltiu { rd: u8, rs: u8, imm: Imm },
    // LUI rd, imm
    Lui { rd: u8, imm: Imm },
    // Branches: OP first, second, label
    Beq { rs: u8, rt: u8, label: Vec<u8> },
    Bne { rs: u8, rt: u8, label: Vec<u8> },
    Blt { rs: u8, rt: u8, label: Vec<u8> },
    Bge { rs: u8, rt: u8, label: Vec<u8> },
    // Jumps / calls
    J { label: Vec<u8> },
    Jal { label: Vec<u8> },
    Jr { rs: u8 },
    Jalr { rd: u8, rs: u8 },
    // System / misc
    Nop,
    Halt,
}

/// An IR item as contracts see it: the same shape, with names as byte
/// sequences.
#[verifier::ext_equal]
pub ghost enum InstrV {
    Sb { rd: u8, base: u8, imm: ImmV },
    Sw { rd: u8, base: u8, imm: ImmV },
    Lw { rd: u8, base: u8, imm: ImmV },
    Lb { rd: u8, base: u8, imm: ImmV },
    Add { rd: u8, rs: u8 },
    Sub { rd: u8, rs: u8 },
    And { rd: u8, rs: u8 },
    Or { rd: u8, rs: u8 },
    Xor { rd: u8, rs: u8 },
    Slt { rd: u8, rs: u8 },
    Sltu { rd: u8, rs: u8 },
    Shl { rd: u8, rs: u8 },
    Shr { rd: u8, rs: u8 },
    Sar { rd: u8, rs: u8 },
    Addi { rd: u8, rs: u8, imm: ImmV },
    Andi { rd: u8, rs: u8, imm: ImmV },
    Ori { rd: u8, rs: u8, imm: ImmV },
    Xori { rd: u8, rs: u8, imm: ImmV },
    Slti { rd: u8, rs: u8, imm: ImmV },
    Sltiu { rd: u8, rs: u8, imm: ImmV },
    Lui { rd: u8, imm: ImmV },
    Beq { rs: u8, rt: u8, label: Seq<u8> },
    Bne { rs: u8, rt: u8, label: Seq<u8> },
    Blt { rs: u8, rt: u8, label: Seq<u8> },
    Bge { rs: u8, rt: u8, label: Seq<u8> },
    J { label: Seq<u8> },
    Jal { label: Seq<u8> },
    Jr { rs: u8 },
    Jalr { rd: u8, rs: u8 },
    Nop,
    Halt,
}

impl View for Instruction {
    type V = InstrV;

    open spec fn view(&self) -> InstrV {
        match self {
            Instruction::Sb { rd, base, imm } => InstrV::Sb { rd: *rd, base: *base, imm: imm@ },
            Instruction::Sw { rd, base, imm } => InstrV::Sw { rd: *rd, base: *base, imm: imm@ },
            Instruction::Lw { rd, base, imm } => InstrV::Lw { rd: *rd, base: *base, imm: imm@ },
            Instruction::Lb { rd, base, imm } => InstrV::Lb { rd: *rd, base: *base, imm: imm@ },
            Instruction::Add { rd, rs } => InstrV::Add { rd: *rd, rs: *rs },
            Instruction::Sub { rd, rs } => InstrV::Sub { rd: *rd, rs: *rs },
            Instruction::And { rd, rs } => InstrV::And { rd: *rd, rs: *rs },
            Instruction::Or { rd, rs } => InstrV::Or { rd: *rd, rs: *rs },
            Instruction::Xor { rd, rs } => InstrV::Xor { rd: *rd, rs: *rs },
            Instruction::Slt { rd, rs } => InstrV::Slt { rd: *rd, rs: *rs },
            Instruction::Sltu { rd, rs } => InstrV::Sltu { rd: *rd, rs: *rs },
            Instruction::Shl { rd, rs } => InstrV::Shl { rd: *rd, rs: *rs },
            Instruction::Shr { rd, rs } => InstrV::Shr { rd: *rd, rs: *rs },
            Instruction::Sar { rd, rs } => InstrV::Sar { rd: *rd, rs: *rs },
            Instruction::Addi { rd, rs, imm } => InstrV::Addi { rd: *rd, rs: *rs, imm: imm@ },
            Instruction::Andi { rd, rs, imm } => InstrV::Andi { rd: *rd, rs: *rs, imm: imm@ },
            Instruction::Ori { rd, rs, imm } => InstrV::Ori { rd: *rd, rs: *rs, imm: imm@ },
            Instruction::Xori { rd, rs, imm } => InstrV::Xori { rd: *rd, rs: *rs, imm: imm@ },
            Instruction::Slti { rd, rs, imm } => InstrV::Slti { rd: *rd, rs: *rs, imm: imm@ },
            Instruction::Sltiu { rd, rs, imm } => InstrV::Sltiu { rd: *rd, rs: *rs, imm: imm@ },
            Instruction::Lui { rd, imm } => InstrV::Lui { rd: *rd, imm: imm@ },
            Instruction::Beq { rs, rt, label } => InstrV::Beq { rs: *rs, rt: *rt, label: label@ },
            Instruction::Bne { rs, rt, label } => InstrV::Bne { rs: *rs, rt: *rt, label: label@ },
            Instruction::Blt { rs, rt, label } => InstrV::Blt { rs: *rs, rt: *rt, label: label@ },
            Instruction::Bge { rs, rt, label } => InstrV::Bge { rs: *rs, rt: *rt, label: label@ },
            Instruction::J { label } => InstrV::J { label: label@ },
            Instruction::Jal { label } => InstrV::Jal { label: label@ },
            Instruction::Jr { rs } => InstrV::Jr { rs: *rs },
            Instruction::Jalr { rd, rs } => InstrV::Jalr { rd: *rd, rs: *rs },
            Instruction::Nop => InstrV::Nop,
            Instruction::Halt => InstrV::Halt,
        }
    }
}

/// Where the comment starts: the first `;` or `#`.
pub open spec fn spec_comment_start(s: Seq<u8>) -> int {
    if spec_find(s, 59) <= spec_find(s, 35) {
        spec_find(s, 59)
    } else {
        spec_find(s, 35)
    }
}

/// Cut the comment off a line: everything from the first `;` or `#` on.
pub fn strip_comment(s: &[u8]) -> (r: Vec<u8>)
    ensures
        r@ == s@.take(spec_comment_start(s@)),
{
    let a = find_byte(s, 59);
    let b = find_byte(s, 35);
    let cut = if a <= b {
        a
    } else {
        b
    };
    proof {
        crate::asmtext::lemma_spec_find(s@, 59);
        crate::asmtext::lemma_spec_find(s@, 35);
    }
    sub_vec(s, 0, cut)
}

/// Split a leading `label:` off a line: the trimmed label, if a `:` is
/// there, and what follows it. An empty label is an error.
pub fn split_label(line: &[u8]) -> (r: Result<(Option<Vec<u8>>, Vec<u8>), AsmError>)
    ensures
        ({
            let i = spec_find(line@, 58);
            match r {
                Ok((lab, rest)) => {
                    &&& (i < line@.len() ==> (lab matches Some(l) && l@ == spec_trim(
                        line@.take(i),
                    ) && l@.len() > 0 && rest@ == line@.skip(i + 1)))
                    &&& (i == line@.len() ==> lab is None && rest@ == line@)
                },
                Err(e) => i < line@.len() && spec_trim(line@.take(i)).len() == 0 && (
                e matches AsmError::ParseError(t) && t@ == line@),
            }
        }),
{
    proof {
        crate::asmtext::lemma_spec_find(line@, 58);
    }
    let i = find_byte(line, 58);
    if i == line.len() {
        let r = sub_vec(line, 0, line.len());
        proof {
            assert(r@ =~= line@);
        }
        return Ok((None, r));
    }
    let left = sub_vec(line, 0, i);
    proof {
        assert(left@ =~= line@.take(i as int));
    }
    let label = trim(left.as_slice());
    if label.len() == 0 {
        let whole = sub_vec(line, 0, line.len());
        proof {
            assert(whole@ =~= line@);
        }
        return Err(AsmError::ParseError(whole));
    }
    let rest = sub_vec(line, i + 1, line.len());
    proof {
        assert(rest@ =~= line@.skip(i as int + 1));
    }
    Ok((Some(label), rest))
}

/// The comma-separated pieces of an operand list, each trimmed, empty
/// pieces dropped.
pub open spec fn spec_split_args(s: Seq<u8>) -> Seq<Seq<u8>>
    decreases s.len(),
    via spec_split_args_decreases
{
    let i = spec_find(s, 44);
    if i == s.len() {
        if spec_trim(s).len() > 0 {
            seq![spec_trim(s)]
        } else {
            Seq::empty()
        }
    } else {
        let head = spec_trim(s.take(i));
        let rest = spec_split_args(s.skip(i + 1));
        if head.len() > 0 {
            seq![head] + rest
        } else {
            rest
        }
    }
}

#[via_fn]
proof fn spec_split_args_decreases(s: Seq<u8>) {
    crate::asmtext::lemma_spec_find(s, 44);
}

/// Split an operand list on commas.
pub fn split_commas(s: &[u8]) -> (r: Vec<Vec<u8>>)
    ensures
        r@.map_values(|v: Vec<u8>| v@) == spec_split_args(s@),
    decreases s@.len(),
{
    proof {
        crate::asmtext::lemma_spec_find(s@, 44);
    }
    let i = find_byte(s, 44);
    if i == s.len() {
        let t = trim(s);
        if t.len() > 0 {
            let mut r: Vec<Vec<u8>> = Vec::new();
            r.push(t);
            proof {
                assert(r@.map_values(|v: Vec<u8>| v@) =~= spec_split_args(s@));
            }
            r
        } else {
            let r: Vec<Vec<u8>> = Vec::new();
            proof {
                assert(r@.map_values(|v: Vec<u8>| v@) =~= spec_split_args(s@));
            }
            r
        }
    } else {
        let headraw = sub_vec(s, 0, i);
        let head = trim(headraw.as_slice());
        let restraw = sub_vec(s, i + 1, s.len());
        proof {
            assert(restraw@ =~= s@.skip(i as int + 1));
        }
        let mut r = split_commas(restraw.as_slice());
        if head.len() > 0 {
            r.insert(0, head);
            proof {
                assert(r@.map_values(|v: Vec<u8>| v@) =~= spec_split_args(s@));
            }
        } else {
            proof {
                assert(r@.map_values(|v: Vec<u8>| v@) =~= spec_split_args(s@));
            }
        }
        r
    }
}

/// Split an operand list and demand an exact count.
pub fn split_args(rest: &[u8], expected: usize) -> (r: Result<Vec<Vec<u8>>, AsmError>)
    ensures
        match r {
            Ok(args) => args@.map_values(|v: Vec<u8>| v@) == spec_split_args(rest@)
                && args@.len() == expected,
            Err(e) => spec_split_args(rest@).len() != expected && (
            e matches AsmError::ParseError(t) && t@ == rest@),
        },
{
    let args = split_commas(rest);
    if args.len() != expected {
        let whole = sub_vec(rest, 0, rest.len());
        proof {
            assert(whole@ =~= rest@);
        }
        return Err(AsmError::ParseError(whole));
    }
    Ok(args)
}

/// What a backslash escape stands for: `\n \t \r \\ \" \0`.
pub open spec fn esc_byte(b: u8) -> Option<u8> {
    if b == 110 {
        Some(10)
    } else if b == 116 {
        Some(9)
    } else if b == 114 {
        Some(13)
    } else if b == 92 {
        Some(92)
    } else if b == 34 {
        Some(34)
    } else if b == 48 {
        Some(0)
    } else {
        None
    }
}

/// A quoted body with its escapes decoded; `None` on an unknown escape or
/// a dangling backslash.
pub open spec fn spec_unescape(s: Seq<u8>) -> Option<Seq<u8>>
    decreases s.len(),
{
    if s.len() == 0 {
        Some(Seq::empty())
    } else if s[0] == 92 {
        if s.len() == 1 {
            None
        } else {
            match esc_byte(s[1]) {
                None => None,
                Some(b) => match spec_unescape(s.skip(2)) {
                    None => None,
                    Some(r) => Some(seq![b] + r),
                },
            }
        }
    } else {
        match spec_unescape(s.skip(1)) {
            None => None,
            Some(r) => Some(seq![s[0]] + r),
        }
    }
}

/// Decode the escapes of a quoted body.
fn unescape(s: &[u8]) -> (r: Result<Vec<u8>, AsmError>)
    ensures
        match r {
            Ok(out) => spec_unescape(s@) == Some(out@),
            Err(e) => spec_unescape(s@) is None && (e matches AsmError::ParseError(t) && t@ == s@),
        },
{
    let n = s.len();
    let mut out: Vec<u8> = Vec::new();
    proof {
        assert(s@.skip(0) =~= s@);
        match spec_unescape(s@) {
            Some(r) => {
                assert(Seq::<u8>::empty() + r =~= r);
            },
            None => {},
        }
    }
    let mut i: usize = 0;
    while i < n
        invariant
            0 <= i <= n,
            n == s@.len(),
            match spec_unescape(s@.skip(i as int)) {
                Some(r) => spec_unescape(s@) == Some(out@ + r),
                None => spec_unescape(s@) is None,
            },
        decreases n - i,
    {
        let ghost pre = out@;
        let b = s[i];
        if b == 92 {
            if i + 1 == n {
                let whole = sub_vec(s, 0, n);
                proof {
                    assert(whole@ =~= s@);
                    assert(s@.skip(i as int).len() == 1);
                }
                return Err(AsmError::ParseError(whole));
            }
            let e = s[i + 1];
            let decoded: u8 = if e == 110 {
                10
            } else if e == 116 {
                9
            } else if e == 114 {
                13
            } else if e == 92 {
                92
            } else if e == 34 {
                34
            } else if e == 48 {
                0
            } else {
                let whole = sub_vec(s, 0, n);
                proof {
                    assert(whole@ =~= s@);
                    assert(s@.skip(i as int)[1] == s@[i as int + 1]);
                }
                return Err(AsmError::ParseError(whole));
            };
            out.push(decoded);
            proof {
                assert(s@.skip(i as int).skip(2) =~= s@.skip(i as int + 2));
                match spec_unescape(s@.skip(i as int + 2)) {
                    Some(r) => {
                        assert(pre + (seq![decoded] + r) =~= out@ + r);
                    },
                    None => {},
                }
            }
            i = i + 2;
        } else {
            out.push(b);
            proof {
                assert(s@.skip(i as int).skip(1) =~= s@.skip(i as int + 1));
                match spec_unescape(s@.skip(i as int + 1)) {
                    Some(r) => {
                        assert(pre + (seq![b] + r) =~= out@ + r);
                    },
                    None => {},
                }
            }
            i = i + 1;
        }
    }
    proof {
        assert(s@.skip(n as int) =~= Seq::<u8>::empty());
        assert(out@ + Seq::<u8>::empty() =~= out@);
    }
    Ok(out)
}

/// The decoded body of a quoted directive operand: everything after the
/// first space, trimmed, must be `"…"`, and the inside decodes; else the
/// error names the offending text.
pub open spec fn spec_parse_quoted(line: Seq<u8>) -> Result<Seq<u8>, AsmErrorV> {
    let sp = spec_find(line, 32);
    if sp == line.len() {
        Err(AsmErrorV::ParseError(line))
    } else {
        let rest = spec_trim(line.skip(sp + 1));
        if rest.len() >= 2 && rest[0] == 34 && rest.last() == 34 {
            match spec_unescape(rest.subrange(1, rest.len() - 1)) {
                Some(b) => Ok(b),
                None => Err(AsmErrorV::ParseError(rest.subrange(1, rest.len() - 1))),
            }
        } else {
            Err(AsmErrorV::ParseError(rest))
        }
    }
}

/// `.string "…"` as the first pass reads it: the decoded bytes with a NUL
/// terminator appended.
pub open spec fn spec_parse_string(line: Seq<u8>) -> Result<Seq<u8>, AsmErrorV> {
    match spec_parse_quoted(line) {
        Ok(b) => Ok(b.push(0u8)),
        Err(e) => Err(e),
    }
}

/// The quoted operand of `.string` / `.ascii`, escapes decoded.
fn parse_quoted(line: &[u8]) -> (r: Result<Vec<u8>, AsmError>)
    ensures
        ({
            let sr = spec_parse_quoted(line@);
            match r {
                Ok(out) => sr == Ok::<Seq<u8>, AsmErrorV>(out@),
                Err(e) => sr == Err::<Seq<u8>, AsmErrorV>(e@),
            }
        }),
{
    proof {
        crate::asmtext::lemma_spec_find(line@, 32);
    }
    let sp = find_byte(line, 32);
    if sp == line.len() {
        let whole = sub_vec(line, 0, line.len());
        proof {
            assert(whole@ =~= line@);
        }
        return Err(AsmError::ParseError(whole));
    }
    let restraw = sub_vec(line, sp + 1, line.len());
    proof {
        assert(restraw@ =~= line@.skip(sp as int + 1));
    }
    let rest = trim(restraw.as_slice());
    if !(rest.len() >= 2 && rest[0] == 34 && rest[rest.len() - 1] == 34) {
        return Err(AsmError::ParseError(rest));
    }
    let inner = sub_vec(rest.as_slice(), 1, rest.len() - 1);
    proof {
        assert(inner@ =~= spec_trim(line@.skip(sp as int + 1)).subrange(
            1,
            spec_trim(line@.skip(sp as int + 1)).len() - 1,
        ));
    }
    unescape(inner.as_slice())
}

/// `.string "…"`: the decoded bytes with a NUL terminator appended.
pub fn parse_string_directive(line: &[u8]) -> (r: Result<Vec<u8>, AsmError>)
    ensures
        ({
            let sr = spec_parse_string(line@);
            match r {
                Ok(out) => sr == Ok::<Seq<u8>, AsmErrorV>(out@),
                Err(e) => sr == Err::<Seq<u8>, AsmErrorV>(e@),
            }
        }),
{
    let mut bytes = parse_quoted(line)?;
    bytes.push(0);
    Ok(bytes)
}

/// `.ascii "…"`: the decoded bytes, exactly as written.
pub fn parse_ascii_directive(line: &[u8]) -> (r: Result<Vec<u8>, AsmError>)
    ensures
        ({
            let sr = spec_parse_quoted(line@);
            match r {
                Ok(out) => sr == Ok::<Seq<u8>, AsmErrorV>(out@),
                Err(e) => sr == Err::<Seq<u8>, AsmErrorV>(e@),
            }
        }),
{
    parse_quoted(line)
}

/// What an `.equ` value means: a known equate, `0x`/`0X` hex, or decimal.
pub open spec fn spec_parse_equ_value(s: Seq<u8>, equates: Seq<(Seq<u8>, u32)>) -> Option<u32> {
    let t = spec_trim(s);
    if spec_lookup(equates, t) is Some {
        spec_lookup(equates, t)
    } else {
        spec_parse_u32_literal(s)
    }
}

/// Parse an `.equ` value against the equate table.
pub fn parse_equ_value(s: &[u8], equates: &Vec<(Vec<u8>, u32)>) -> (r: Result<u32, AsmError>)
    ensures
        match r {
            Ok(v) => spec_parse_equ_value(s@, tbl_view(equates@)) == Some(v),
            Err(e) => spec_parse_equ_value(s@, tbl_view(equates@)) is None && (
            e matches AsmError::InvalidImmediate(t) && t@ == spec_trim(s@)),
        },
{
    let t = trim(s);
    if let Some(v) = lookup(equates, t.as_slice()) {
        return Ok(v);
    }
    parse_u32_literal(s)
}

/// `.equ NAME, VALUE` as the first pass reads it: the trimmed name and its
/// value, or the first error the line raises.
pub open spec fn spec_parse_equ(line: Seq<u8>, equates: Seq<(Seq<u8>, u32)>) -> Result<
    (Seq<u8>, u32),
    AsmErrorV,
> {
    let sp = spec_find(line, 32);
    if sp == line.len() {
        Err(AsmErrorV::ParseError(line))
    } else {
        let rest = line.skip(sp + 1);
        let c = spec_find(rest, 44);
        if c == rest.len() {
            Err(AsmErrorV::ParseError(rest))
        } else {
            let name = spec_trim(rest.take(c));
            match spec_parse_equ_value(rest.skip(c + 1), equates) {
                None => Err(AsmErrorV::InvalidImmediate(spec_trim(rest.skip(c + 1)))),
                Some(v) => Ok((name, v)),
            }
        }
    }
}

/// Read a `.equ NAME, VALUE` line and record the equate.
pub fn parse_equ_directive(line: &[u8], equates: &mut Vec<(Vec<u8>, u32)>) -> (r: Result<
    (),
    AsmError,
>)
    ensures
        match r {
            Ok(u) => spec_parse_equ(line@, tbl_view(old(equates)@)) matches Ok(nv) && tbl_view(
                final(equates)@,
            ) == tbl_view(old(equates)@).push(nv),
            Err(e) => spec_parse_equ(line@, tbl_view(old(equates)@)) == Err::<
                (Seq<u8>, u32),
                AsmErrorV,
            >(e@) && *final(equates) == *old(equates),
        },
{
    proof {
        crate::asmtext::lemma_spec_find(line@, 32);
    }
    let sp = find_byte(line, 32);
    if sp == line.len() {
        let whole = sub_vec(line, 0, line.len());
        proof {
            assert(whole@ =~= line@);
        }
        return Err(AsmError::ParseError(whole));
    }
    let rest = sub_vec(line, sp + 1, line.len());
    proof {
        assert(rest@ =~= line@.skip(sp as int + 1));
        crate::asmtext::lemma_spec_find(rest@, 44);
    }
    let c = find_byte(rest.as_slice(), 44);
    if c == rest.len() {
        return Err(AsmError::ParseError(rest));
    }
    let nameraw = sub_vec(rest.as_slice(), 0, c);
    let name = trim(nameraw.as_slice());
    let valpart = sub_vec(rest.as_slice(), c + 1, rest.len());
    proof {
        assert(valpart@ =~= line@.skip(spec_find(line@, 32) + 1).skip(c as int + 1));
    }
    let value = match parse_equ_value(valpart.as_slice(), equates) {
        Ok(v) => v,
        Err(e) => { return Err(e); },
    };
    let ghost nm = name@;
    equates.push((name, value));
    proof {
        assert(tbl_view(equates@) =~= tbl_view(old(equates)@).push((nm, value)));
    }
    Ok(())
}

/// What an operand that may be a value or a name means: a character
/// literal; a known equate (folded to 16 bits when it fits, else kept as a
/// name for `li` to expand); a 16-bit immediate; else a name.
pub open spec fn spec_imm_or_label(s: Seq<u8>, equates: Seq<(Seq<u8>, u32)>) -> ImmV {
    let t = spec_trim(s);
    match spec_parse_char_literal(s) {
        Some(c) => ImmV::Value(c as i16),
        None => match spec_lookup(equates, t) {
            Some(val) => if val <= 0xFFFF {
                ImmV::Value(as_i16_raw(val as int))
            } else {
                ImmV::Label(t)
            },
            None => match spec_parse_imm(s) {
                Some(v) => ImmV::Value(v),
                None => ImmV::Label(t),
            },
        },
    }
}

/// Read an operand that may be a value or a name.
pub fn parse_imm_or_label(s: &[u8], equates: &Vec<(Vec<u8>, u32)>) -> (r: Imm)
    ensures
        r@ == spec_imm_or_label(s@, tbl_view(equates@)),
{
    if let Some(c) = parse_char_literal(s) {
        return Imm::Value(c as i16);
    }
    let t = trim(s);
    if let Some(val) = lookup(equates, t.as_slice()) {
        if val <= 0x7FFF {
            return Imm::Value(val as i16);
        }
        if val <= 0xFFFF {
            return Imm::Value((val as i32 - 0x10000) as i16);
        }
        return Imm::Label(t);
    }
    match parse_imm(s) {
        Ok(v) => Imm::Value(v),
        Err(e) => Imm::Label(t),
    }
}

/// The 16-bit halves of a 32-bit value stay 16-bit.
proof fn lemma_halves_fit(val: u32)
    by (bit_vector)
    ensures
        val >> 16 <= 0xFFFF,
        val & 0xFFFF <= 0xFFFF,
{
}

/// What an immediate term resolves to in pass two: a value as itself; a
/// name as its equate value (which must fit 16 bits) or its label address
/// (which must fit a signed 16-bit field); the high or low half of a
/// name's 32-bit value.
pub open spec fn spec_resolve_imm(
    imm: ImmV,
    labels: Seq<(Seq<u8>, u32)>,
    equates: Seq<(Seq<u8>, u32)>,
) -> Result<i16, AsmErrorV> {
    match imm {
        ImmV::Value(v) => Ok(v),
        ImmV::Label(name) => match spec_lookup(equates, name) {
            Some(val) => if val <= 0xFFFF {
                Ok(as_i16_raw(val as int))
            } else {
                Err(AsmErrorV::InvalidImmediate(name))
            },
            None => match spec_lookup(labels, name) {
                None => Err(AsmErrorV::UnknownLabel(name)),
                Some(addr) => if addr <= 0x7FFF {
                    Ok(addr as i16)
                } else {
                    Err(AsmErrorV::InvalidImmediate(name))
                },
            },
        },
        ImmV::LabelHi(name) => match spec_lookup(equates, name) {
            Some(val) => Ok(as_i16_raw((val >> 16) as int)),
            None => match spec_lookup(labels, name) {
                None => Err(AsmErrorV::UnknownLabel(name)),
                Some(addr) => Ok(as_i16_raw((addr >> 16) as int)),
            },
        },
        ImmV::LabelLo(name) => match spec_lookup(equates, name) {
            Some(val) => Ok(as_i16_raw((val & 0xFFFF) as int)),
            None => match spec_lookup(labels, name) {
                None => Err(AsmErrorV::UnknownLabel(name)),
                Some(addr) => Ok(as_i16_raw((addr & 0xFFFF) as int)),
            },
        },
    }
}

/// A 16-bit half reinterpreted as a signed field.
fn half_to_i16(h: u32) -> (r: i16)
    requires
        h <= 0xFFFF,
    ensures
        r == as_i16_raw(h as int),
{
    if h < 0x8000 {
        h as i16
    } else {
        (h as i32 - 0x10000) as i16
    }
}

/// Resolve an immediate term against the label and equate tables.
pub fn resolve_imm(
    imm: Imm,
    labels: &Vec<(Vec<u8>, u32)>,
    equates: &Vec<(Vec<u8>, u32)>,
) -> (r: Result<i16, AsmError>)
    ensures
        ({
            let sr = spec_resolve_imm(imm@, tbl_view(labels@), tbl_view(equates@));
            match r {
                Ok(v) => sr == Ok::<i16, AsmErrorV>(v),
                Err(e) => sr == Err::<i16, AsmErrorV>(e@),
            }
        }),
{
    match imm {
        Imm::Value(v) => Ok(v),
        Imm::Label(name) => match lookup(equates, name.as_slice()) {
            Some(val) => {
                if val <= 0xFFFF {
                    Ok(half_to_i16(val))
                } else {
                    Err(AsmError::InvalidImmediate(name))
                }
            },
            None => match lookup(labels, name.as_slice()) {
                None => Err(AsmError::UnknownLabel(name)),
                Some(addr) => {
                    if addr <= 0x7FFF {
                        Ok(addr as i16)
                    } else {
                        Err(AsmError::InvalidImmediate(name))
                    }
                },
            },
        },
        Imm::LabelHi(name) => {
            let val = match lookup(equates, name.as_slice()) {
                Some(v) => v,
                None => match lookup(labels, name.as_slice()) {
                    None => { return Err(AsmError::UnknownLabel(name)); },
                    Some(a) => a,
                },
            };
            proof {
                lemma_halves_fit(val);
            }
            Ok(half_to_i16(val >> 16))
        },
        Imm::LabelLo(name) => {
            let val = match lookup(equates, name.as_slice()) {
                Some(v) => v,
                None => match lookup(labels, name.as_slice()) {
                    None => { return Err(AsmError::UnknownLabel(name)); },
                    Some(a) => a,
                },
            };
            proof {
                lemma_halves_fit(val);
            }
            Ok(half_to_i16(val & 0xFFFF))
        },
    }
}

/// Look a label's address up.
pub fn get_label_addr(label: &[u8], labels: &Vec<(Vec<u8>, u32)>) -> (r: Result<u32, AsmError>)
    ensures
        match r {
            Ok(a) => spec_lookup(tbl_view(labels@), label@) == Some(a),
            Err(e) => spec_lookup(tbl_view(labels@), label@) is None && (
            e matches AsmError::UnknownLabel(t) && t@ == label@),
        },
{
    match lookup(labels, label) {
        Some(a) => Ok(a),
        None => {
            let name = sub_vec(label, 0, label.len());
            proof {
                assert(name@ =~= label@);
            }
            Err(AsmError::UnknownLabel(name))
        },
    }
}

/// Integer division by four, rounding toward zero.
pub open spec fn div4_toward_zero(d: int) -> int {
    if d >= 0 {
        d / 4
    } else {
        -((-d) / 4)
    }
}

/// A branch displacement: the distance from the slot after the branch to
/// the label, in words; it must fit a signed 16-bit field.
pub open spec fn spec_branch_imm(label: Seq<u8>, labels: Seq<(Seq<u8>, u32)>, pc: u32) -> Result<
    i16,
    AsmErrorV,
> {
    match spec_lookup(labels, label) {
        None => Err(AsmErrorV::UnknownLabel(label)),
        Some(target) => {
            let d = div4_toward_zero(
                target - crate::cpu::w_add(pc, 4),
            );
            if -0x8000 <= d <= 0x7FFF {
                Ok(d as i16)
            } else {
                Err(AsmErrorV::InvalidImmediate(label))
            }
        },
    }
}

/// Work a branch displacement out against the label table.
pub fn branch_imm(label: Vec<u8>, labels: &Vec<(Vec<u8>, u32)>, pc: u32) -> (r: Result<
    i16,
    AsmError,
>)
    ensures
        ({
            let sr = spec_branch_imm(label@, tbl_view(labels@), pc);
            match r {
                Ok(v) => sr == Ok::<i16, AsmErrorV>(v),
                Err(e) => sr == Err::<i16, AsmErrorV>(e@),
            }
        }),
{
    let target = match lookup(labels, label.as_slice()) {
        Some(t) => t,
        None => { return Err(AsmError::UnknownLabel(label)); },
    };
    let pc_next = pc.wrapping_add(4);
    if target >= pc_next {
        let q = (target - pc_next) / 4;
        if q <= 0x7FFF {
            Ok(q as i16)
        } else {
            Err(AsmError::InvalidImmediate(label))
        }
    } else {
        let q = (pc_next - target) / 4;
        if q <= 0x8000 {
            Ok((-(q as i32)) as i16)
        } else {
            Err(AsmError::InvalidImmediate(label))
        }
    }
}

/// The I-type word: opcode, rd, rs and a raw 16-bit immediate field.
pub open spec fn spec_enc_i(op: u8, rd: u8, rs: u8, imm: i16) -> u32 {
    ((op as u32) << 26) | ((rd as u32) << 21) | ((rs as u32) << 16) | ((imm as u16) as u32)
}

/// The J-type word: opcode and a 26-bit word-address target.
pub open spec fn spec_enc_j(op: u8, target: u32) -> u32 {
    ((op as u32) << 26) | ((target >> 2) & 0x03FF_FFFF)
}

/// Pack an I-type word.
fn enc_i(op: u8, rd: u8, rs: u8, imm: i16) -> (r: u32)
    ensures
        r == spec_enc_i(op, rd, rs, imm),
{
    ((op as u32) << 26) | ((rd as u32) << 21) | ((rs as u32) << 16) | ((imm as u16) as u32)
}

/// What pass two encodes each IR item to, at address `pc`: the exact
/// 32-bit instruction word, or the error its operands raise.
#[verifier::opaque]
pub open spec fn spec_encode_instruction(
    instr: InstrV,
    labels: Seq<(Seq<u8>, u32)>,
    equates: Seq<(Seq<u8>, u32)>,
    pc: u32,
) -> Result<u32, AsmErrorV> {
    match instr {
        InstrV::Sb { rd, base, imm } => match spec_resolve_imm(imm, labels, equates) {
            Ok(v) => Ok(spec_enc_i(OP_SB, rd, base, v)),
            Err(e) => Err(e),
        },
        InstrV::Sw { rd, base, imm } => match spec_resolve_imm(imm, labels, equates) {
            Ok(v) => Ok(spec_enc_i(OP_SW, rd, base, v)),
            Err(e) => Err(e),
        },
        InstrV::Lw { rd, base, imm } => match spec_resolve_imm(imm, labels, equates) {
            Ok(v) => Ok(spec_enc_i(OP_LW, rd, base, v)),
            Err(e) => Err(e),
        },
        InstrV::Lb { rd, base, imm } => match spec_resolve_imm(imm, labels, equates) {
            Ok(v) => Ok(spec_enc_i(OP_LB, rd, base, v)),
            Err(e) => Err(e),
        },
        InstrV::Add { rd, rs } => Ok(spec_enc_i(OP_ADD, rd, rs, 0)),
        InstrV::Sub { rd, rs } => Ok(spec_enc_i(OP_SUB, rd, rs, 0)),
        InstrV::And { rd, rs } => Ok(spec_enc_i(OP_AND, rd, rs, 0)),
        InstrV::Or { rd, rs } => Ok(spec_enc_i(OP_OR, rd, rs, 0)),
        InstrV::Xor { rd, rs } => Ok(spec_enc_i(OP_XOR, rd, rs, 0)),
        InstrV::Slt { rd, rs } => Ok(spec_enc_i(OP_SLT, rd, rs, 0)),
        InstrV::Sltu { rd, rs } => Ok(spec_enc_i(OP_SLTU, rd, rs, 0)),
        InstrV::Shl { rd, rs } => Ok(spec_enc_i(OP_SHL, rd, rs, 0)),
        InstrV::Shr { rd, rs } => Ok(spec_enc_i(OP_SHR, rd, rs, 0)),
        InstrV::Sar { rd, rs } => Ok(spec_enc_i(OP_SAR, rd, rs, 0)),
        InstrV::Addi { rd, rs, imm } => match spec_resolve_imm(imm, labels, equates) {
            Ok(v) => Ok(spec_enc_i(OP_ADDI, rd, rs, v)),
            Err(e) => Err(e),
        },
        InstrV::Andi { rd, rs, imm } => match spec_resolve_imm(imm, labels, equates) {
            Ok(v) => Ok(spec_enc_i(OP_ANDI, rd, rs, v)),
            Err(e) => Err(e),
        },
        InstrV::Ori { rd, rs, imm } => match spec_resolve_imm(imm, labels, equates) {
            Ok(v) => Ok(spec_enc_i(OP_ORI, rd, rs, v)),
            Err(e) => Err(e),
        },
        InstrV::Xori { rd, rs, imm } => match spec_resolve_imm(imm, labels, equates) {
            Ok(v) => Ok(spec_enc_i(OP_XORI, rd, rs, v)),
            Err(e) => Err(e),
        },
        InstrV::Slti { rd, rs, imm } => match spec_resolve_imm(imm, labels, equates) {
            Ok(v) => Ok(spec_enc_i(OP_SLTI, rd, rs, v)),
            Err(e) => Err(e),
        },
        InstrV::Sltiu { rd, rs, imm } => match spec_resolve_imm(imm, labels, equates) {
            Ok(v) => Ok(spec_enc_i(OP_SLTIU, rd, rs, v)),
            Err(e) => Err(e),
        },
        InstrV::Lui { rd, imm } => match spec_resolve_imm(imm, labels, equates) {
            Ok(v) => Ok(spec_enc_i(OP_LUI, rd, 0, v)),
            Err(e) => Err(e),
        },
        InstrV::Beq { rs, rt, label } => match spec_branch_imm(label, labels, pc) {
            Ok(v) => Ok(spec_enc_i(OP_BEQ, rs, rt, v)),
            Err(e) => Err(e),
        },
        InstrV::Bne { rs, rt, label } => match spec_branch_imm(label, labels, pc) {
            Ok(v) => Ok(spec_enc_i(OP_BNE, rs, rt, v)),
            Err(e) => Err(e),
        },
        InstrV::Blt { rs, rt, label } => match spec_branch_imm(label, labels, pc) {
            Ok(v) => Ok(spec_enc_i(OP_BLT, rs, rt, v)),
            Err(e) => Err(e),
        },
        InstrV::Bge { rs, rt, label } => match spec_branch_imm(label, labels, pc) {
            Ok(v) => Ok(spec_enc_i(OP_BGE, rs, rt, v)),
            Err(e) => Err(e),
        },
        InstrV::J { label } => match spec_lookup(labels, label) {
            None => Err(AsmErrorV::UnknownLabel(label)),
            Some(target) => Ok(spec_enc_j(OP_J, target)),
        },
        InstrV::Jal { label } => match spec_lookup(labels, label) {
            None => Err(AsmErrorV::UnknownLabel(label)),
            Some(target) => Ok(spec_enc_j(OP_JAL, target)),
        },
        InstrV::Jr { rs } => Ok(spec_enc_i(OP_JR, 0, rs, 0)),
        InstrV::Jalr { rd, rs } => Ok(spec_enc_i(OP_JALR, rd, rs, 0)),
        InstrV::Nop => Ok(spec_enc_i(OP_NOP, 0, 0, 0)),
        InstrV::Halt => Ok(spec_enc_i(OP_HALT, 0, 0, 0)),
    }
}

/// Encode one IR item at address `pc`, resolving its names.
pub fn encode_instruction(
    instr: Instruction,
    labels: &Vec<(Vec<u8>, u32)>,
    equates: &Vec<(Vec<u8>, u32)>,
    pc: u32,
) -> (r: Result<u32, AsmError>)
    ensures
        ({
            let sr = spec_encode_instruction(instr@, tbl_view(labels@), tbl_view(equates@), pc);
            match r {
                Ok(w) => sr == Ok::<u32, AsmErrorV>(w),
                Err(e) => sr == Err::<u32, AsmErrorV>(e@),
            }
        }),
{
    proof {
        reveal(spec_encode_instruction);
    }
    match instr {
        Instruction::Sb { rd, base, imm } => Ok(enc_i(OP_SB, rd, base, resolve_imm(imm, labels, equates)?)),
        Instruction::Sw { rd, base, imm } => Ok(enc_i(OP_SW, rd, base, resolve_imm(imm, labels, equates)?)),
        Instruction::Lw { rd, base, imm } => Ok(enc_i(OP_LW, rd, base, resolve_imm(imm, labels, equates)?)),
        Instruction::Lb { rd, base, imm } => Ok(enc_i(OP_LB, rd, base, resolve_imm(imm, labels, equates)?)),
        Instruction::Add { rd, rs } => Ok(enc_i(OP_ADD, rd, rs, 0)),
        Instruction::Sub { rd, rs } => Ok(enc_i(OP_SUB, rd, rs, 0)),
        Instruction::And { rd, rs } => Ok(enc_i(OP_AND, rd, rs, 0)),
        Instruction::Or { rd, rs } => Ok(enc_i(OP_OR, rd, rs, 0)),
        Instruction::Xor { rd, rs } => Ok(enc_i(OP_XOR, rd, rs, 0)),
        Instruction::Slt { rd, rs } => Ok(enc_i(OP_SLT, rd, rs, 0)),
        Instruction::Sltu { rd, rs } => Ok(enc_i(OP_SLTU, rd, rs, 0)),
        Instruction::Shl { rd, rs } => Ok(enc_i(OP_SHL, rd, rs, 0)),
        Instruction::Shr { rd, rs } => Ok(enc_i(OP_SHR, rd, rs, 0)),
        Instruction::Sar { rd, rs } => Ok(enc_i(OP_SAR, rd, rs, 0)),
        Instruction::Addi { rd, rs, imm } => Ok(enc_i(OP_ADDI, rd, rs, resolve_imm(imm, labels, equates)?)),
        Instruction::Andi { rd, rs, imm } => Ok(enc_i(OP_ANDI, rd, rs, resolve_imm(imm, labels, equates)?)),
        Instruction::Ori { rd, rs, imm } => Ok(enc_i(OP_ORI, rd, rs, resolve_imm(imm, labels, equates)?)),
        Instruction::Xori { rd, rs, imm } => Ok(enc_i(OP_XORI, rd, rs, resolve_imm(imm, labels, equates)?)),
        Instruction::Slti { rd, rs, imm } => Ok(enc_i(OP_SLTI, rd, rs, resolve_imm(imm, labels, equates)?)),
        Instruction::Sltiu { rd, rs, imm } => Ok(enc_i(OP_SLTIU, rd, rs, resolve_imm(imm, labels, equates)?)),
        Instruction::Lui { rd, imm } => Ok(enc_i(OP_LUI, rd, 0, resolve_imm(imm, labels, equates)?)),
        Instruction::Beq { rs, rt, label } => Ok(enc_i(OP_BEQ, rs, rt, branch_imm(label, labels, pc)?)),
        Instruction::Bne { rs, rt, label } => Ok(enc_i(OP_BNE, rs, rt, branch_imm(label, labels, pc)?)),
        Instruction::Blt { rs, rt, label } => Ok(enc_i(OP_BLT, rs, rt, branch_imm(label, labels, pc)?)),
        Instruction::Bge { rs, rt, label } => Ok(enc_i(OP_BGE, rs, rt, branch_imm(label, labels, pc)?)),
        Instruction::J { label } => match lookup(labels, label.as_slice()) {
            Some(target) => Ok(((OP_J as u32) << 26) | ((target >> 2) & 0x03FF_FFFF)),
            None => Err(AsmError::UnknownLabel(label)),
        },
        Instruction::Jal { label } => match lookup(labels, label.as_slice()) {
            Some(target) => Ok(((OP_JAL as u32) << 26) | ((target >> 2) & 0x03FF_FFFF)),
            None => Err(AsmError::UnknownLabel(label)),
        },
        Instruction::Jr { rs } => Ok(enc_i(OP_JR, 0, rs, 0)),
        Instruction::Jalr { rd, rs } => Ok(enc_i(OP_JALR, rd, rs, 0)),
        Instruction::Nop => Ok(enc_i(OP_NOP, 0, 0, 0)),
        Instruction::Halt => Ok(enc_i(OP_HALT, 0, 0, 0)),
    }
}

/// Decoding recovers the packed I-type fields.
proof fn lemma_enc_i_fields(op: u8, rd: u8, rs: u8, imm: i16)
    by (bit_vector)
    requires
        op < 64,
        rd < 32,
        rs < 32,
    ensures
        (spec_enc_i(op, rd, rs, imm) >> 26) & 0x3F == op,
        (spec_enc_i(op, rd, rs, imm) >> 21) & 0x1F == rd,
        (spec_enc_i(op, rd, rs, imm) >> 16) & 0x1F == rs,
        spec_enc_i(op, rd, rs, imm) & 0xFFFF == imm as u16,
{
}

/// Law: the assembler's branch round trip. Encoding a branch whose label
/// sits at `target` while the branch itself is emitted at `pc` and then
/// decoding the emitted word yields exactly the displacement
/// `(target - (pc + 4)) / 4`, read back as a signed 16-bit value.
pub proof fn lemma_branch_encode_round_trip(
    op: u8,
    first: u8,
    second: u8,
    label: Seq<u8>,
    labels: Seq<(Seq<u8>, u32)>,
    pc: u32,
    target: u32,
    word: u32,
)
    requires
        op == OP_BEQ || op == OP_BNE || op == OP_BLT || op == OP_BGE,
        first < 32,
        second < 32,
        spec_lookup(labels, label) == Some(target),
        -0x8000 <= div4_toward_zero(target - crate::cpu::w_add(pc, 4)) <= 0x7FFF,
        spec_branch_imm(label, labels, pc) matches Ok(d) && word == spec_enc_i(
            op,
            first,
            second,
            d,
        ),
    ensures
        crate::cpu::spec_decode(word).opcode == op,
        crate::cpu::spec_decode(word).rd == first,
        crate::cpu::spec_decode(word).rs == second,
        crate::cpu::sign16_val(crate::cpu::spec_decode(word).imm16) == div4_toward_zero(
            target - crate::cpu::w_add(pc, 4),
        ),
{
    let d = spec_branch_imm(label, labels, pc)->Ok_0;
    lemma_enc_i_fields(op, first, second, d);
    assert(op < 64);
    assert((word >> 26) & 0x3F == op && (word >> 21) & 0x1F == first && (word >> 16) & 0x1F
        == second && word & 0xFFFF == d as u16) by (bit_vector)
        requires
            word == spec_enc_i(op, first, second, d),
            op < 64,
            first < 32,
            second < 32,
    ;
    assert(crate::cpu::sign16_val(d as u16) == d) by (bit_vector);
}


/// The four load/store shapes, all written `OP rd, imm(rs)`.
#[derive(Debug, Clone, Copy, PartialEq, Eq, Structural)]
pub enum LsKind {
    Sb,
    Sw,
    Lw,
    Lb,
}

/// An `imm(reg)` address operand split into its trimmed immediate text and
/// the register text; `None` when the parentheses are missing or crossed.
pub open spec fn spec_parse_addr(a: Seq<u8>) -> Option<(Seq<u8>, Seq<u8>)> {
    let o = spec_find(a, 40);
    let c = spec_find(a, 41);
    if o == a.len() || c == a.len() || c <= o {
        None
    } else {
        Some((spec_trim(a.take(o)), a.subrange(o + 1, c)))
    }
}

/// An optional immediate text: empty means zero, anything else is read as
/// a value or a name.
pub open spec fn spec_imm_operand(immtxt: Seq<u8>, equates: Seq<(Seq<u8>, u32)>) -> ImmV {
    if immtxt.len() == 0 {
        ImmV::Value(0i16)
    } else {
        spec_imm_or_label(immtxt, equates)
    }
}

/// What `OP rd, imm(rs)` means: the load/store IR item the operands
/// denote, or the first error the operands raise, in parsing order.
pub open spec fn spec_parse_ls(rest: Seq<u8>, kind: LsKind, equates: Seq<(Seq<u8>, u32)>) -> Result<
    InstrV,
    AsmErrorV,
> {
    let parts = spec_split_args(rest);
    if parts.len() != 2 {
        Err(AsmErrorV::ParseError(rest))
    } else {
        match spec_parse_reg(parts[0]) {
            None => Err(AsmErrorV::InvalidRegister(spec_trim(parts[0]))),
            Some(rd) => match spec_parse_addr(parts[1]) {
                None => Err(AsmErrorV::ParseError(parts[1])),
                Some(ad) => match spec_parse_reg(ad.1) {
                    None => Err(AsmErrorV::InvalidRegister(spec_trim(ad.1))),
                    Some(base) => {
                        let imm = spec_imm_operand(ad.0, equates);
                        Ok(
                            match kind {
                                LsKind::Sb => InstrV::Sb { rd, base, imm },
                                LsKind::Sw => InstrV::Sw { rd, base, imm },
                                LsKind::Lw => InstrV::Lw { rd, base, imm },
                                LsKind::Lb => InstrV::Lb { rd, base, imm },
                            },
                        )
                    },
                },
            },
        }
    }
}

/// Read `OP rd, imm(rs)`.
pub fn parse_ls(rest: &[u8], kind: LsKind, equates: &Vec<(Vec<u8>, u32)>) -> (r: Result<
    Instruction,
    AsmError,
>)
    ensures
        ({
            let sr = spec_parse_ls(rest@, kind, tbl_view(equates@));
            match r {
                Ok(instr) => sr == Ok::<InstrV, AsmErrorV>(instr@),
                Err(e) => sr == Err::<InstrV, AsmErrorV>(e@),
            }
        }),
{
    let args = split_args(rest, 2)?;
    let rd = parse_reg(args[0].as_slice())?;
    let addr = &args[1];
    proof {
        crate::asmtext::lemma_spec_find(addr@, 40);
        crate::asmtext::lemma_spec_find(addr@, 41);
    }
    let o = find_byte(addr.as_slice(), 40);
    if o == addr.len() {
        let t = sub_vec(addr.as_slice(), 0, addr.len());
        proof {
            assert(t@ =~= spec_split_args(rest@)[1]);
        }
        return Err(AsmError::ParseError(t));
    }
    let c = find_byte(addr.as_slice(), 41);
    if c == addr.len() || c <= o {
        let t = sub_vec(addr.as_slice(), 0, addr.len());
        proof {
            assert(t@ =~= spec_split_args(rest@)[1]);
        }
        return Err(AsmError::ParseError(t));
    }
    let immraw = sub_vec(addr.as_slice(), 0, o);
    proof {
        assert(immraw@ =~= addr@.take(o as int));
    }
    let immtxt = trim(immraw.as_slice());
    let regtxt = sub_vec(addr.as_slice(), o + 1, c);
    let base = parse_reg(regtxt.as_slice())?;
    let imm = if immtxt.len() == 0 {
        Imm::Value(0)
    } else {
        parse_imm_or_label(immtxt.as_slice(), equates)
    };
    proof {
        if immtxt@.len() > 0 {
            crate::asmtext::lemma_trim_idempotent(addr@.take(o as int));
        }
    }
    Ok(
        match kind {
            LsKind::Sb => Instruction::Sb { rd, base, imm },
            LsKind::Sw => Instruction::Sw { rd, base, imm },
            LsKind::Lw => Instruction::Lw { rd, base, imm },
            LsKind::Lb => Instruction::Lb { rd, base, imm },
        },
    )
}

/// What `OP rd, rs` means: the two registers, or the first error.
pub open spec fn spec_parse_reg_reg(rest: Seq<u8>) -> Result<(u8, u8), AsmErrorV> {
    let parts = spec_split_args(rest);
    if parts.len() != 2 {
        Err(AsmErrorV::ParseError(rest))
    } else {
        match spec_parse_reg(parts[0]) {
            None => Err(AsmErrorV::InvalidRegister(spec_trim(parts[0]))),
            Some(rd) => match spec_parse_reg(parts[1]) {
                None => Err(AsmErrorV::InvalidRegister(spec_trim(parts[1]))),
                Some(rs) => Ok((rd, rs)),
            },
        }
    }
}

/// Read `OP rd, rs`.
pub fn parse_reg_reg(rest: &[u8]) -> (r: Result<(u8, u8), AsmError>)
    ensures
        ({
            let sr = spec_parse_reg_reg(rest@);
            match r {
                Ok(p) => sr == Ok::<(u8, u8), AsmErrorV>(p),
                Err(e) => sr == Err::<(u8, u8), AsmErrorV>(e@),
            }
        }),
{
    let args = split_args(rest, 2)?;
    let rd = parse_reg(args[0].as_slice())?;
    let rs = parse_reg(args[1].as_slice())?;
    Ok((rd, rs))
}

/// What `OP rd, rs, imm` means: the registers and the immediate term, or
/// the first error.
pub open spec fn spec_parse_reg_reg_imm(rest: Seq<u8>, equates: Seq<(Seq<u8>, u32)>) -> Result<
    (u8, u8, ImmV),
    AsmErrorV,
> {
    let parts = spec_split_args(rest);
    if parts.len() != 3 {
        Err(AsmErrorV::ParseError(rest))
    } else {
        match spec_parse_reg(parts[0]) {
            None => Err(AsmErrorV::InvalidRegister(spec_trim(parts[0]))),
            Some(rd) => match spec_parse_reg(parts[1]) {
                None => Err(AsmErrorV::InvalidRegister(spec_trim(parts[1]))),
                Some(rs) => Ok((rd, rs, spec_imm_or_label(parts[2], equates))),
            },
        }
    }
}

/// Read `OP rd, rs, imm`.
pub fn parse_reg_reg_imm(rest: &[u8], equates: &Vec<(Vec<u8>, u32)>) -> (r: Result<
    (u8, u8, Imm),
    AsmError,
>)
    ensures
        ({
            let sr = spec_parse_reg_reg_imm(rest@, tbl_view(equates@));
            match r {
                Ok(p) => sr == Ok::<(u8, u8, ImmV), AsmErrorV>((p.0, p.1, p.2@)),
                Err(e) => sr == Err::<(u8, u8, ImmV), AsmErrorV>(e@),
            }
        }),
{
    let args = split_args(rest, 3)?;
    let rd = parse_reg(args[0].as_slice())?;
    let rs = parse_reg(args[1].as_slice())?;
    let imm = parse_imm_or_label(args[2].as_slice(), equates);
    Ok((rd, rs, imm))
}

/// What `OP first, second, label` means: the registers and the label text,
/// or the first error.
pub open spec fn spec_parse_branch(rest: Seq<u8>) -> Result<(u8, u8, Seq<u8>), AsmErrorV> {
    let parts = spec_split_args(rest);
    if parts.len() != 3 {
        Err(AsmErrorV::ParseError(rest))
    } else {
        match spec_parse_reg(parts[0]) {
            None => Err(AsmErrorV::InvalidRegister(spec_trim(parts[0]))),
            Some(rs) => match spec_parse_reg(parts[1]) {
                None => Err(AsmErrorV::InvalidRegister(spec_trim(parts[1]))),
                Some(rt) => Ok((rs, rt, parts[2])),
            },
        }
    }
}

/// Read `OP first, second, label`.
pub fn parse_branch(rest: &[u8]) -> (r: Result<(u8, u8, Vec<u8>), AsmError>)
    ensures
        ({
            let sr = spec_parse_branch(rest@);
            match r {
                Ok(p) => sr == Ok::<(u8, u8, Seq<u8>), AsmErrorV>((p.0, p.1, p.2@)),
                Err(e) => sr == Err::<(u8, u8, Seq<u8>), AsmErrorV>(e@),
            }
        }),
{
    let args = split_args(rest, 3)?;
    let rs = parse_reg(args[0].as_slice())?;
    let rt = parse_reg(args[1].as_slice())?;
    let label = sub_vec(args[2].as_slice(), 0, args[2].len());
    proof {
        assert(label@ =~= spec_split_args(rest@)[2]);
    }
    Ok((rs, rt, label))
}


/// A one-item instruction list.
fn one_instr(i: Instruction) -> (v: Vec<Instruction>)
    ensures
        instrs_view(v@) == seq![i@],
{
    let ghost iv = i@;
    let mut v: Vec<Instruction> = Vec::new();
    v.push(i);
    proof {
        assert(instrs_view(v@) =~= seq![iv]);
    }
    v
}

/// Expand a 32-bit constant to `LUI hi; ORI rd, rd, lo`.
fn expand_lui_ori(rd: u8, val: u32) -> (r: Vec<Instruction>)
    ensures
        instrs_view(r@) == spec_expand_lui_ori(rd, val),
{
    proof {
        lemma_halves_fit(val);
    }
    let upper = half_to_i16(val >> 16);
    let lower = half_to_i16(val & 0xFFFF);
    let mut v: Vec<Instruction> = Vec::new();
    v.push(Instruction::Lui { rd, imm: Imm::Value(upper) });
    v.push(Instruction::Ori { rd, rs: rd, imm: Imm::Value(lower) });
    proof {
        assert(instrs_view(v@) =~= spec_expand_lui_ori(rd, val));
    }
    v
}

/// A source instruction's IR items as contracts see them.
pub open spec fn instrs_view(v: Seq<Instruction>) -> Seq<InstrV> {
    v.map_values(|i: Instruction| i@)
}

/// The `LUI hi; ORI rd, rd, lo` pair materialising a 32-bit constant.
pub open spec fn spec_expand_lui_ori(rd: u8, val: u32) -> Seq<InstrV> {
    seq![
        InstrV::Lui { rd, imm: ImmV::Value(as_i16_raw((val >> 16) as int)) },
        InstrV::Ori { rd, rs: rd, imm: ImmV::Value(as_i16_raw((val & 0xFFFF) as int)) },
    ]
}

/// What `li rd, value` expands to: one ADDI when the value fits a signed
/// or raw 16-bit field; a LUI/ORI pair for a full 32-bit constant; an ADDI
/// of a label term, resolved in pass two, for a plain name.
pub open spec fn spec_expand_li(rd: u8, operand: ImmV, equates: Seq<(Seq<u8>, u32)>) -> Result<
    Seq<InstrV>,
    AsmErrorV,
> {
    match operand {
        ImmV::Value(v) => Ok(seq![InstrV::Addi { rd, rs: 0, imm: ImmV::Value(v) }]),
        ImmV::Label(name) => match spec_lookup(equates, name) {
            Some(val) => if val <= 0x7FFF {
                Ok(seq![InstrV::Addi { rd, rs: 0, imm: ImmV::Value(val as i16) }])
            } else {
                Ok(spec_expand_lui_ori(rd, val))
            },
            None => match spec_parse_u32_literal(name) {
                Some(val) => if val <= 0x7FFF {
                    Ok(seq![InstrV::Addi { rd, rs: 0, imm: ImmV::Value(val as i16) }])
                } else if val <= 0xFFFF {
                    Ok(seq![InstrV::Addi { rd, rs: 0, imm: ImmV::Value(as_i16_raw(val as int)) }])
                } else {
                    Ok(spec_expand_lui_ori(rd, val))
                },
                None => Ok(seq![InstrV::Addi { rd, rs: 0, imm: ImmV::Label(name) }]),
            },
        },
        ImmV::LabelHi(name) => Err(AsmErrorV::ParseError(name)),
        ImmV::LabelLo(name) => Err(AsmErrorV::ParseError(name)),
    }
}

/// What `la rd, name` expands to: always a LUI/ORI pair — of the known
/// 32-bit value for an equate or literal, or of the label's address halves
/// resolved in pass two.
pub open spec fn spec_expand_la(rd: u8, operand: ImmV, equates: Seq<(Seq<u8>, u32)>) -> Result<
    Seq<InstrV>,
    AsmErrorV,
> {
    match operand {
        ImmV::Value(v) => Ok(spec_expand_lui_ori(rd, (v as i32) as u32)),
        ImmV::Label(name) => match spec_lookup(equates, name) {
            Some(val) => Ok(spec_expand_lui_ori(rd, val)),
            None => Ok(
                seq![
                    InstrV::Lui { rd, imm: ImmV::LabelHi(name) },
                    InstrV::Ori { rd, rs: rd, imm: ImmV::LabelLo(name) },
                ],
            ),
        },
        ImmV::LabelHi(name) => Err(AsmErrorV::ParseError(name)),
        ImmV::LabelLo(name) => Err(AsmErrorV::ParseError(name)),
    }
}

/// `rd, operand` for `lui`, `li` and `la`: the register and the operand
/// term, or the first error.
pub open spec fn spec_parse_reg_operand(rest: Seq<u8>, equates: Seq<(Seq<u8>, u32)>) -> Result<
    (u8, ImmV),
    AsmErrorV,
> {
    let parts = spec_split_args(rest);
    if parts.len() != 2 {
        Err(AsmErrorV::ParseError(rest))
    } else {
        match spec_parse_reg(parts[0]) {
            None => Err(AsmErrorV::InvalidRegister(spec_trim(parts[0]))),
            Some(rd) => Ok((rd, spec_imm_or_label(parts[1], equates))),
        }
    }
}

/// A single label operand, for `j` and `jal`.
pub open spec fn spec_parse_one_label(rest: Seq<u8>) -> Result<Seq<u8>, AsmErrorV> {
    let parts = spec_split_args(rest);
    if parts.len() != 1 {
        Err(AsmErrorV::ParseError(rest))
    } else {
        Ok(parts[0])
    }
}

/// A single register operand, for `jr`.
pub open spec fn spec_parse_one_reg(rest: Seq<u8>) -> Result<u8, AsmErrorV> {
    let parts = spec_split_args(rest);
    if parts.len() != 1 {
        Err(AsmErrorV::ParseError(rest))
    } else {
        match spec_parse_reg(parts[0]) {
            None => Err(AsmErrorV::InvalidRegister(spec_trim(parts[0]))),
            Some(rs) => Ok(rs),
        }
    }
}

/// What one source instruction means: the mnemonic (folded to lower case)
/// selects the operand form, and a pseudo-op (`mv`/`move`, `li`, `la`)
/// expands to one or two real IR items; only `li` and `la` produce two,
/// always a LUI followed by an ORI.
#[verifier::opaque]
pub open spec fn spec_parse_instruction(line: Seq<u8>, equates: Seq<(Seq<u8>, u32)>) -> Result<
    Seq<InstrV>,
    AsmErrorV,
> {
    let lt = spec_trim(line);
    if lt.len() == 0 {
        Err(AsmErrorV::ParseError(lt))
    } else {
        let sp = crate::asmtext::spec_find_space(lt);
        let mn = spec_lower(lt.take(sp));
        let rest = lt.skip(sp);
        if mn == "sb".spec_bytes() {
            map_one_instr(spec_parse_ls(rest, LsKind::Sb, equates))
        } else if mn == "sw".spec_bytes() {
            map_one_instr(spec_parse_ls(rest, LsKind::Sw, equates))
        } else if mn == "lw".spec_bytes() {
            map_one_instr(spec_parse_ls(rest, LsKind::Lw, equates))
        } else if mn == "lb".spec_bytes() {
            map_one_instr(spec_parse_ls(rest, LsKind::Lb, equates))
        } else if mn == "add".spec_bytes() {
            map_reg_reg(spec_parse_reg_reg(rest), OP_ADD)
        } else if mn == "sub".spec_bytes() {
            map_reg_reg(spec_parse_reg_reg(rest), OP_SUB)
        } else if mn == "and".spec_bytes() {
            map_reg_reg(spec_parse_reg_reg(rest), OP_AND)
        } else if mn == "or".spec_bytes() {
            map_reg_reg(spec_parse_reg_reg(rest), OP_OR)
        } else if mn == "xor".spec_bytes() {
            map_reg_reg(spec_parse_reg_reg(rest), OP_XOR)
        } else if mn == "slt".spec_bytes() {
            map_reg_reg(spec_parse_reg_reg(rest), OP_SLT)
        } else if mn == "sltu".spec_bytes() {
            map_reg_reg(spec_parse_reg_reg(rest), OP_SLTU)
        } else if mn == "shl".spec_bytes() {
            map_reg_reg(spec_parse_reg_reg(rest), OP_SHL)
        } else if mn == "shr".spec_bytes() {
            map_reg_reg(spec_parse_reg_reg(rest), OP_SHR)
        } else if mn == "sar".spec_bytes() {
            map_reg_reg(spec_parse_reg_reg(rest), OP_SAR)
        } else if mn == "addi".spec_bytes() {
            map_reg_reg_imm(spec_parse_reg_reg_imm(rest, equates), OP_ADDI)
        } else if mn == "andi".spec_bytes() {
            map_reg_reg_imm(spec_parse_reg_reg_imm(rest, equates), OP_ANDI)
        } else if mn == "ori".spec_bytes() {
            map_reg_reg_imm(spec_parse_reg_reg_imm(rest, equates), OP_ORI)
        } else if mn == "xori".spec_bytes() {
            map_reg_reg_imm(spec_parse_reg_reg_imm(rest, equates), OP_XORI)
        } else if mn == "slti".spec_bytes() {
            map_reg_reg_imm(spec_parse_reg_reg_imm(rest, equates), OP_SLTI)
        } else if mn == "sltiu".spec_bytes() {
            map_reg_reg_imm(spec_parse_reg_reg_imm(rest, equates), OP_SLTIU)
        } else if mn == "lui".spec_bytes() {
            match spec_parse_reg_operand(rest, equates) {
                Ok(p) => Ok(seq![InstrV::Lui { rd: p.0, imm: p.1 }]),
                Err(e) => Err(e),
            }
        } else {
            spec_parse_instruction_rest(mn, rest, equates)
        }
    }
}

/// The tail of the mnemonic dispatch: branches, jumps, calls, pseudo-ops
/// and system instructions.
#[verifier::opaque]
pub open spec fn spec_parse_instruction_rest(
    mn: Seq<u8>,
    rest: Seq<u8>,
    equates: Seq<(Seq<u8>, u32)>,
) -> Result<Seq<InstrV>, AsmErrorV> {
    {
        if mn == "beq".spec_bytes() {
            map_branch(spec_parse_branch(rest), OP_BEQ)
        } else if mn == "bne".spec_bytes() {
            map_branch(spec_parse_branch(rest), OP_BNE)
        } else if mn == "blt".spec_bytes() {
            map_branch(spec_parse_branch(rest), OP_BLT)
        } else if mn == "bge".spec_bytes() {
            map_branch(spec_parse_branch(rest), OP_BGE)
        } else if mn == "j".spec_bytes() {
            match spec_parse_one_label(rest) {
                Ok(l) => Ok(seq![InstrV::J { label: l }]),
                Err(e) => Err(e),
            }
        } else if mn == "jal".spec_bytes() {
            match spec_parse_one_label(rest) {
                Ok(l) => Ok(seq![InstrV::Jal { label: l }]),
                Err(e) => Err(e),
            }
        } else if mn == "jr".spec_bytes() {
            match spec_parse_one_reg(rest) {
                Ok(rs) => Ok(seq![InstrV::Jr { rs }]),
                Err(e) => Err(e),
            }
        } else if mn == "jalr".spec_bytes() {
            match spec_parse_reg_reg(rest) {
                Ok(p) => Ok(seq![InstrV::Jalr { rd: p.0, rs: p.1 }]),
                Err(e) => Err(e),
            }
        } else if mn == "move".spec_bytes() || mn == "mv".spec_bytes() {
            match spec_parse_reg_reg(rest) {
                Ok(p) => Ok(seq![InstrV::Addi { rd: p.0, rs: p.1, imm: ImmV::Value(0) }]),
                Err(e) => Err(e),
            }
        } else if mn == "li".spec_bytes() {
            match spec_parse_reg_operand(rest, equates) {
                Ok(p) => spec_expand_li(p.0, p.1, equates),
                Err(e) => Err(e),
            }
        } else if mn == "la".spec_bytes() {
            match spec_parse_reg_operand(rest, equates) {
                Ok(p) => spec_expand_la(p.0, p.1, equates),
                Err(e) => Err(e),
            }
        } else if mn == "nop".spec_bytes() {
            Ok(seq![InstrV::Nop])
        } else if mn == "halt".spec_bytes() {
            Ok(seq![InstrV::Halt])
        } else {
            Err(AsmErrorV::ParseError(mn))
        }
    }
}

/// Lift a one-item parse to an item list.
pub open spec fn map_one_instr(r: Result<InstrV, AsmErrorV>) -> Result<Seq<InstrV>, AsmErrorV> {
    match r {
        Ok(i) => Ok(seq![i]),
        Err(e) => Err(e),
    }
}

/// Build the two-operand ALU item a mnemonic stands for.
pub open spec fn map_reg_reg(r: Result<(u8, u8), AsmErrorV>, op: u8) -> Result<
    Seq<InstrV>,
    AsmErrorV,
> {
    match r {
        Ok(p) => Ok(
            seq![
                if op == OP_ADD { InstrV::Add { rd: p.0, rs: p.1 } }
                else if op == OP_SUB { InstrV::Sub { rd: p.0, rs: p.1 } }
                else if op == OP_AND { InstrV::And { rd: p.0, rs: p.1 } }
                else if op == OP_OR { InstrV::Or { rd: p.0, rs: p.1 } }
                else if op == OP_XOR { InstrV::Xor { rd: p.0, rs: p.1 } }
                else if op == OP_SLT { InstrV::Slt { rd: p.0, rs: p.1 } }
                else if op == OP_SLTU { InstrV::Sltu { rd: p.0, rs: p.1 } }
                else if op == OP_SHL { InstrV::Shl { rd: p.0, rs: p.1 } }
                else if op == OP_SHR { InstrV::Shr { rd: p.0, rs: p.1 } }
                else { InstrV::Sar { rd: p.0, rs: p.1 } },
            ],
        ),
        Err(e) => Err(e),
    }
}

/// Build the immediate-ALU item a mnemonic stands for.
pub open spec fn map_reg_reg_imm(r: Result<(u8, u8, ImmV), AsmErrorV>, op: u8) -> Result<
    Seq<InstrV>,
    AsmErrorV,
> {
    match r {
        Ok(p) => Ok(
            seq![
                if op == OP_ADDI { InstrV::Addi { rd: p.0, rs: p.1, imm: p.2 } }
                else if op == OP_ANDI { InstrV::Andi { rd: p.0, rs: p.1, imm: p.2 } }
                else if op == OP_ORI { InstrV::Ori { rd: p.0, rs: p.1, imm: p.2 } }
                else if op == OP_XORI { InstrV::Xori { rd: p.0, rs: p.1, imm: p.2 } }
                else if op == OP_SLTI { InstrV::Slti { rd: p.0, rs: p.1, imm: p.2 } }
                else { InstrV::Sltiu { rd: p.0, rs: p.1, imm: p.2 } },
            ],
        ),
        Err(e) => Err(e),
    }
}

/// Build the branch item a mnemonic stands for.
pub open spec fn map_branch(r: Result<(u8, u8, Seq<u8>), AsmErrorV>, op: u8) -> Result<
    Seq<InstrV>,
    AsmErrorV,
> {
    match r {
        Ok(p) => Ok(
            seq![
                if op == OP_BEQ { InstrV::Beq { rs: p.0, rt: p.1, label: p.2 } }
                else if op == OP_BNE { InstrV::Bne { rs: p.0, rt: p.1, label: p.2 } }
                else if op == OP_BLT { InstrV::Blt { rs: p.0, rt: p.1, label: p.2 } }
                else { InstrV::Bge { rs: p.0, rt: p.1, label: p.2 } },
            ],
        ),
        Err(e) => Err(e),
    }
}

/// Read one source instruction: the mnemonic (case-insensitive), then its
/// operands. A pseudo-op (`mv`/`move`, `li`, `la`) expands to one or two
/// real instructions; only `li` and `la` produce two, always a `LUI`
/// followed by an `ORI`.
#[verifier::rlimit(100)]
#[verifier::spinoff_prover]
pub fn parse_instruction(line: &[u8], equates: &Vec<(Vec<u8>, u32)>) -> (r: Result<
    Vec<Instruction>,
    AsmError,
>)
    ensures
        ({
            let sr = spec_parse_instruction(line@, tbl_view(equates@));
            match r {
                Ok(v) => sr == Ok::<Seq<InstrV>, AsmErrorV>(instrs_view(v@)),
                Err(e) => sr == Err::<Seq<InstrV>, AsmErrorV>(e@),
            }
        }),
{
    proof {
        reveal(spec_parse_instruction);
    }
    let lt = trim(line);
    if lt.len() == 0 {
        return Err(AsmError::ParseError(lt));
    }
    let sp = crate::asmtext::find_space(lt.as_slice());
    proof {
        crate::asmtext::lemma_spec_find_space(lt@);
    }
    let mnraw = sub_vec(lt.as_slice(), 0, sp);
    let mn = to_lower(mnraw.as_slice());
    let rest = sub_vec(lt.as_slice(), sp, lt.len());
    let m = mn.as_slice();

    if bytes_eq(m, "sb".as_bytes()) {
        Ok(one_instr(parse_ls(rest.as_slice(), LsKind::Sb, equates)?))
    } else if bytes_eq(m, "sw".as_bytes()) {
        Ok(one_instr(parse_ls(rest.as_slice(), LsKind::Sw, equates)?))
    } else if bytes_eq(m, "lw".as_bytes()) {
        Ok(one_instr(parse_ls(rest.as_slice(), LsKind::Lw, equates)?))
    } else if bytes_eq(m, "lb".as_bytes()) {
        Ok(one_instr(parse_ls(rest.as_slice(), LsKind::Lb, equates)?))
    } else if bytes_eq(m, "add".as_bytes()) {
        let p = parse_reg_reg(rest.as_slice())?;
        Ok(one_instr(Instruction::Add { rd: p.0, rs: p.1 }))
    } else if bytes_eq(m, "sub".as_bytes()) {
        let p = parse_reg_reg(rest.as_slice())?;
        Ok(one_instr(Instruction::Sub { rd: p.0, rs: p.1 }))
    } else if bytes_eq(m, "and".as_bytes()) {
        let p = parse_reg_reg(rest.as_slice())?;
        Ok(one_instr(Instruction::And { rd: p.0, rs: p.1 }))
    } else if bytes_eq(m, "or".as_bytes()) {
        let p = parse_reg_reg(rest.as_slice())?;
        Ok(one_instr(Instruction::Or { rd: p.0, rs: p.1 }))
    } else if bytes_eq(m, "xor".as_bytes()) {
        let p = parse_reg_reg(rest.as_slice())?;
        Ok(one_instr(Instruction::Xor { rd: p.0, rs: p.1 }))
    } else if bytes_eq(m, "slt".as_bytes()) {
        let p = parse_reg_reg(rest.as_slice())?;
        Ok(one_instr(Instruction::Slt { rd: p.0, rs: p.1 }))
    } else if bytes_eq(m, "sltu".as_bytes()) {
        let p = parse_reg_reg(rest.as_slice())?;
        Ok(one_instr(Instruction::Sltu { rd: p.0, rs: p.1 }))
    } else if bytes_eq(m, "shl".as_bytes()) {
        let p = parse_reg_reg(rest.as_slice())?;
        Ok(one_instr(Instruction::Shl { rd: p.0, rs: p.1 }))
    } else if bytes_eq(m, "shr".as_bytes()) {
        let p = parse_reg_reg(rest.as_slice())?;
        Ok(one_instr(Instruction::Shr { rd: p.0, rs: p.1 }))
    } else if bytes_eq(m, "sar".as_bytes()) {
        let p = parse_reg_reg(rest.as_slice())?;
        Ok(one_instr(Instruction::Sar { rd: p.0, rs: p.1 }))
    } else if bytes_eq(m, "addi".as_bytes()) {
        let p = parse_reg_reg_imm(rest.as_slice(), equates)?;
        Ok(one_instr(Instruction::Addi { rd: p.0, rs: p.1, imm: p.2 }))
    } else if bytes_eq(m, "andi".as_bytes()) {
        let p = parse_reg_reg_imm(rest.as_slice(), equates)?;
        Ok(one_instr(Instruction::Andi { rd: p.0, rs: p.1, imm: p.2 }))
    } else if bytes_eq(m, "ori".as_bytes()) {
        let p = parse_reg_reg_imm(rest.as_slice(), equates)?;
        Ok(one_instr(Instruction::Ori { rd: p.0, rs: p.1, imm: p.2 }))
    } else if bytes_eq(m, "xori".as_bytes()) {
        let p = parse_reg_reg_imm(rest.as_slice(), equates)?;
        Ok(one_instr(Instruction::Xori { rd: p.0, rs: p.1, imm: p.2 }))
    } else if bytes_eq(m, "slti".as_bytes()) {
        let p = parse_reg_reg_imm(rest.as_slice(), equates)?;
        Ok(one_instr(Instruction::Slti { rd: p.0, rs: p.1, imm: p.2 }))
    } else if bytes_eq(m, "sltiu".as_bytes()) {
        let p = parse_reg_reg_imm(rest.as_slice(), equates)?;
        Ok(one_instr(Instruction::Sltiu { rd: p.0, rs: p.1, imm: p.2 }))
    } else if bytes_eq(m, "lui".as_bytes()) {
        let args = split_args(rest.as_slice(), 2)?;
        let rd = parse_reg(args[0].as_slice())?;
        let imm = parse_imm_or_label(args[1].as_slice(), equates);
        Ok(one_instr(Instruction::Lui { rd, imm }))
    } else {
        parse_instruction_rest(m, rest.as_slice(), equates)
    }
}

/// The tail of the mnemonic dispatch: branches, jumps, calls, pseudo-ops
/// and system instructions.
#[verifier::rlimit(100)]
#[verifier::spinoff_prover]
fn parse_instruction_rest(m: &[u8], rest: &[u8], equates: &Vec<(Vec<u8>, u32)>) -> (r: Result<
    Vec<Instruction>,
    AsmError,
>)
    ensures
        ({
            let sr = spec_parse_instruction_rest(m@, rest@, tbl_view(equates@));
            match r {
                Ok(v) => sr == Ok::<Seq<InstrV>, AsmErrorV>(instrs_view(v@)),
                Err(e) => sr == Err::<Seq<InstrV>, AsmErrorV>(e@),
            }
        }),
{
    proof {
        reveal(spec_parse_instruction_rest);
    }
    if bytes_eq(m, "beq".as_bytes()) {
        let p = parse_branch(rest)?;
        Ok(one_instr(Instruction::Beq { rs: p.0, rt: p.1, label: p.2 }))
    } else if bytes_eq(m, "bne".as_bytes()) {
        let p = parse_branch(rest)?;
        Ok(one_instr(Instruction::Bne { rs: p.0, rt: p.1, label: p.2 }))
    } else if bytes_eq(m, "blt".as_bytes()) {
        let p = parse_branch(rest)?;
        Ok(one_instr(Instruction::Blt { rs: p.0, rt: p.1, label: p.2 }))
    } else if bytes_eq(m, "bge".as_bytes()) {
        let p = parse_branch(rest)?;
        Ok(one_instr(Instruction::Bge { rs: p.0, rt: p.1, label: p.2 }))
    } else if bytes_eq(m, "j".as_bytes()) {
        let args = split_args(rest, 1)?;
        let label = sub_vec(args[0].as_slice(), 0, args[0].len());
        proof {
            assert(label@ =~= spec_split_args(rest@)[0]);
        }
        Ok(one_instr(Instruction::J { label }))
    } else if bytes_eq(m, "jal".as_bytes()) {
        let args = split_args(rest, 1)?;
        let label = sub_vec(args[0].as_slice(), 0, args[0].len());
        proof {
            assert(label@ =~= spec_split_args(rest@)[0]);
        }
        Ok(one_instr(Instruction::Jal { label }))
    } else if bytes_eq(m, "jr".as_bytes()) {
        let args = split_args(rest, 1)?;
        let rs = parse_reg(args[0].as_slice())?;
        Ok(one_instr(Instruction::Jr { rs }))
    } else if bytes_eq(m, "jalr".as_bytes()) {
        let args = split_args(rest, 2)?;
        let rd = parse_reg(args[0].as_slice())?;
        let rs = parse_reg(args[1].as_slice())?;
        Ok(one_instr(Instruction::Jalr { rd, rs }))
    } else if bytes_eq(m, "move".as_bytes()) || bytes_eq(m, "mv".as_bytes()) {
        let args = split_args(rest, 2)?;
        let rd = parse_reg(args[0].as_slice())?;
        let rs = parse_reg(args[1].as_slice())?;
        Ok(one_instr(Instruction::Addi { rd, rs, imm: Imm::Value(0) }))
    } else if bytes_eq(m, "li".as_bytes()) {
        // li rd, imm: one ADDI when the value fits a signed or raw 16-bit
        // field; otherwise LUI of the upper half, then ORI of the lower.
        let args = split_args(rest, 2)?;
        let rd = parse_reg(args[0].as_slice())?;
        match parse_imm_or_label(args[1].as_slice(), equates) {
            Imm::Value(v) => Ok(one_instr(Instruction::Addi { rd, rs: 0, imm: Imm::Value(v) })),
            Imm::Label(name) => {
                if let Some(val) = lookup(equates, name.as_slice()) {
                    if val <= 0x7FFF {
                        Ok(one_instr(Instruction::Addi { rd, rs: 0, imm: Imm::Value(val as i16) }))
                    } else {
                        Ok(expand_lui_ori(rd, val))
                    }
                } else {
                    match parse_u32_literal(name.as_slice()) {
                        Ok(val) => {
                            if val <= 0x7FFF {
                                Ok(one_instr(Instruction::Addi {
                                    rd,
                                    rs: 0,
                                    imm: Imm::Value(val as i16),
                                }))
                            } else if val <= 0xFFFF {
                                let lower = half_to_i16(val);
                                Ok(one_instr(Instruction::Addi { rd, rs: 0, imm: Imm::Value(lower) }))
                            } else {
                                Ok(expand_lui_ori(rd, val))
                            }
                        },
                        Err(e) => {
                            // A real label: resolve in pass two, where an
                            // address that does not fit 16 bits is refused.
                            Ok(one_instr(Instruction::Addi { rd, rs: 0, imm: Imm::Label(name) }))
                        },
                    }
                }
            },
            Imm::LabelHi(name) => Err(AsmError::ParseError(name)),
            Imm::LabelLo(name) => Err(AsmError::ParseError(name)),
        }
    } else if bytes_eq(m, "la".as_bytes()) {
        // la rd, label: always a full 32-bit materialisation.
        let args = split_args(rest, 2)?;
        let rd = parse_reg(args[0].as_slice())?;
        match parse_imm_or_label(args[1].as_slice(), equates) {
            Imm::Value(v) => Ok(expand_lui_ori(rd, (v as i32) as u32)),
            Imm::Label(name) => {
                if let Some(val) = lookup(equates, name.as_slice()) {
                    Ok(expand_lui_ori(rd, val))
                } else {
                    let name2 = sub_vec(name.as_slice(), 0, name.len());
                    let ghost nm = name@;
                    proof {
                        assert(name2@ =~= nm);
                    }
                    let mut v: Vec<Instruction> = Vec::new();
                    v.push(Instruction::Lui { rd, imm: Imm::LabelHi(name2) });
                    v.push(Instruction::Ori { rd, rs: rd, imm: Imm::LabelLo(name) });
                    proof {
                        assert(instrs_view(v@) =~= seq![
                            InstrV::Lui { rd, imm: ImmV::LabelHi(nm) },
                            InstrV::Ori { rd, rs: rd, imm: ImmV::LabelLo(nm) },
                        ]);
                    }
                    Ok(v)
                }
            },
            Imm::LabelHi(name) => Err(AsmError::ParseError(name)),
            Imm::LabelLo(name) => Err(AsmError::ParseError(name)),
        }
    } else if bytes_eq(m, "nop".as_bytes()) {
        Ok(one_instr(Instruction::Nop))
    } else if bytes_eq(m, "halt".as_bytes()) {
        Ok(one_instr(Instruction::Halt))
    } else {
        let mn = sub_vec(m, 0, m.len());
        proof {
            assert(mn@ =~= m@);
        }
        Err(AsmError::ParseError(mn))
    }
}


/// A sparse word map under construction: strictly ascending addresses.
pub open spec fn mem_sorted(s: Seq<(u32, u32)>) -> bool {
    forall|i: int, j: int| 0 <= i < j < s.len() ==> (#[trigger] s[i]).0 < (#[trigger] s[j]).0
}

/// `addr -> word` put into the sorted sparse map: entries with smaller
/// addresses kept in front, an entry at the same address overwritten,
/// larger ones pushed right.
pub open spec fn spec_upsert(mem: Seq<(u32, u32)>, addr: u32, word: u32) -> Seq<(u32, u32)>
    decreases mem.len(),
{
    if mem.len() == 0 {
        seq![(addr, word)]
    } else if mem[0].0 < addr {
        seq![mem[0]] + spec_upsert(mem.drop_first(), addr, word)
    } else if mem[0].0 == addr {
        seq![(addr, word)] + mem.drop_first()
    } else {
        seq![(addr, word)] + mem
    }
}

/// `spec_upsert` works at the first position whose address is not smaller.
proof fn lemma_upsert_at(mem: Seq<(u32, u32)>, addr: u32, word: u32, i: int)
    requires
        0 <= i <= mem.len(),
        forall|k: int| 0 <= k < i ==> (#[trigger] mem[k]).0 < addr,
        i == mem.len() || mem[i].0 >= addr,
    ensures
        i < mem.len() && mem[i].0 == addr ==> spec_upsert(mem, addr, word) == mem.update(
            i,
            (addr, word),
        ),
        i == mem.len() || mem[i].0 > addr ==> spec_upsert(mem, addr, word) == mem.insert(
            i,
            (addr, word),
        ),
    decreases i,
{
    if i == 0 {
        if mem.len() > 0 && mem[0].0 == addr {
            assert(spec_upsert(mem, addr, word) =~= mem.update(0, (addr, word)));
        } else {
            assert(spec_upsert(mem, addr, word) =~= mem.insert(0, (addr, word)));
        }
    } else {
        lemma_upsert_at(mem.drop_first(), addr, word, i - 1);
        if i < mem.len() && mem[i].0 == addr {
            assert(mem.drop_first()[i - 1].0 == addr);
            assert(spec_upsert(mem, addr, word) =~= mem.update(i, (addr, word)));
        } else {
            assert(spec_upsert(mem, addr, word) =~= mem.insert(i, (addr, word)));
        }
    }
}

/// Put `addr -> word` into the sorted sparse map, overwriting an earlier
/// word at the same address.
fn insert_word(mem: &mut Vec<(u32, u32)>, addr: u32, word: u32)
    requires
        mem_sorted(old(mem)@),
    ensures
        mem_sorted(final(mem)@),
        final(mem)@ == spec_upsert(old(mem)@, addr, word),
{
    let n = mem.len();
    let mut i: usize = 0;
    while i < n && mem[i].0 < addr
        invariant
            0 <= i <= n,
            n == mem@.len(),
            mem_sorted(mem@),
            *mem == *old(mem),
            forall|k: int| 0 <= k < i ==> (#[trigger] mem@[k]).0 < addr,
        decreases n - i,
    {
        i = i + 1;
    }
    proof {
        lemma_upsert_at(mem@, addr, word, i as int);
    }
    if i < n && mem[i].0 == addr {
        mem.set(i, (addr, word));
        proof {
            assert forall|a: int, b: int| 0 <= a < b < mem@.len() implies (#[trigger] mem@[a]).0 < (
            #[trigger] mem@[b]).0 by {
                assert(old(mem)@[a].0 < old(mem)@[b].0);
            }
        }
    } else {
        mem.insert(i, (addr, word));
        proof {
            assert forall|a: int, b: int| 0 <= a < b < mem@.len() implies (#[trigger] mem@[a]).0 < (
            #[trigger] mem@[b]).0 by {
                if b < i {
                    assert(mem@[a] == old(mem)@[a] && mem@[b] == old(mem)@[b]);
                } else if a > i {
                    assert(mem@[a] == old(mem)@[a - 1] && mem@[b] == old(mem)@[b - 1]);
                } else if a == i && b > i {
                    assert(mem@[b] == old(mem)@[b - 1]);
                    if b - 1 > i {
                        assert(old(mem)@[i as int].0 < old(mem)@[b - 1].0);
                    }
                } else if b == i && a < i {
                    assert(mem@[a] == old(mem)@[a]);
                } else if a < i && b > i {
                    assert(mem@[a] == old(mem)@[a] && mem@[b] == old(mem)@[b - 1]);
                    if b - 1 >= i && i < old(mem)@.len() {
                        if b - 1 == i {
                            assert(old(mem)@[i as int].0 > addr || i == old(mem)@.len());
                        } else {
                            assert(old(mem)@[i as int].0 < old(mem)@[b - 1].0);
                        }
                    }
                }
            }
        }
    }
}

/// Segments in non-decreasing base-address order.
pub open spec fn segs_sorted(vs: Seq<SegView>) -> bool {
    forall|i: int, j: int|
        0 <= i < j < vs.len() ==> (#[trigger] vs[i]).base_addr <= (#[trigger] vs[j]).base_addr
}

/// Stable insertion sort of segments by base address.
/// One segment put into a sorted list, after every segment whose base is
/// not larger: the stable insertion step.
pub open spec fn spec_ins(v: Seq<SegView>, s: SegView) -> Seq<SegView>
    decreases v.len(),
{
    if v.len() == 0 {
        seq![s]
    } else if v[0].base_addr <= s.base_addr {
        seq![v[0]] + spec_ins(v.drop_first(), s)
    } else {
        seq![s] + v
    }
}

/// The stable insertion sort by base address, left to right.
pub open spec fn spec_sort_acc(rest: Seq<SegView>, out: Seq<SegView>) -> Seq<SegView>
    decreases rest.len(),
{
    if rest.len() == 0 {
        out
    } else {
        spec_sort_acc(rest.drop_first(), spec_ins(out, rest[0]))
    }
}

pub open spec fn spec_sort_segs(segs: Seq<SegView>) -> Seq<SegView> {
    spec_sort_acc(segs, Seq::empty())
}

/// `spec_ins` works at the first position whose base is larger.
proof fn lemma_ins_at(v: Seq<SegView>, s: SegView, i: int)
    requires
        0 <= i <= v.len(),
        forall|k: int| 0 <= k < i ==> (#[trigger] v[k]).base_addr <= s.base_addr,
        i == v.len() || v[i].base_addr > s.base_addr,
    ensures
        spec_ins(v, s) == v.insert(i, s),
    decreases i,
{
    if i == 0 {
        assert(spec_ins(v, s) =~= v.insert(0, s));
    } else {
        lemma_ins_at(v.drop_first(), s, i - 1);
        assert(spec_ins(v, s) =~= v.insert(i, s));
    }
}

fn sort_segments(segs: Vec<NvSegment>) -> (out: Vec<NvSegment>)
    requires
        forall|k: int| 0 <= k < segs@.len() ==> seg_wf((#[trigger] segs@[k])@),
    ensures
        forall|k: int| 0 <= k < out@.len() ==> seg_wf((#[trigger] out@[k])@),
        segs_sorted(out@.map_values(|s: NvSegment| s@)),
        out@.map_values(|s: NvSegment| s@) == spec_sort_segs(segs@.map_values(|s: NvSegment| s@)),
{
    let ghost orig = segs@.map_values(|s: NvSegment| s@);
    let mut rest = segs;
    let mut out: Vec<NvSegment> = Vec::new();
    proof {
        assert(rest@.map_values(|s: NvSegment| s@) =~= orig);
        assert(out@.map_values(|s: NvSegment| s@) =~= Seq::<SegView>::empty());
    }
    while rest.len() > 0
        invariant
            forall|k: int| 0 <= k < rest@.len() ==> seg_wf((#[trigger] rest@[k])@),
            forall|k: int| 0 <= k < out@.len() ==> seg_wf((#[trigger] out@[k])@),
            segs_sorted(out@.map_values(|s: NvSegment| s@)),
            spec_sort_acc(
                rest@.map_values(|s: NvSegment| s@),
                out@.map_values(|s: NvSegment| s@),
            ) == spec_sort_segs(orig),
        decreases rest@.len(),
    {
        let ghost rest_pre = rest@.map_values(|s: NvSegment| s@);
        let s = rest.remove(0);
        proof {
            assert(rest@.map_values(|x: NvSegment| x@) =~= rest_pre.drop_first());
        }
        let n = out.len();
        let mut i: usize = 0;
        while i < n && out[i].base_addr <= s.base_addr
            invariant
                0 <= i <= n,
                n == out@.len(),
                forall|k: int| 0 <= k < i ==> (#[trigger] out@[k]).base_addr <= s.base_addr,
        decreases n - i,
        {
            i = i + 1;
        }
        let ghost prev = out@;
        let ghost sv = s;
        out.insert(i, s);
        proof {
            lemma_ins_at(prev.map_values(|x: NvSegment| x@), sv@, i as int);
            assert(out@.map_values(|x: NvSegment| x@) =~= prev.map_values(
                |x: NvSegment| x@,
            ).insert(i as int, sv@));
            let pm = prev.map_values(|x: NvSegment| x@);
            let m = out@.map_values(|x: NvSegment| x@);
            assert forall|a: int, b: int| 0 <= a < b < m.len() implies (#[trigger] m[a]).base_addr
                <= (#[trigger] m[b]).base_addr by {
                if b < i {
                    assert(pm[a].base_addr <= pm[b].base_addr);
                } else if a < i && b == i {
                    assert(prev[a].base_addr <= sv.base_addr);
                } else if a < i && b > i {
                    if a == b - 1 {
                    } else {
                        assert(pm[a].base_addr <= pm[b - 1].base_addr);
                    }
                } else if a == i {
                    if b - 1 == i {
                        assert(prev[i as int].base_addr > sv.base_addr);
                    } else {
                        assert(prev[i as int].base_addr > sv.base_addr);
                        assert(pm[i as int].base_addr <= pm[b - 1].base_addr);
                    }
                } else {
                    assert(pm[a - 1].base_addr <= pm[b - 1].base_addr);
                }
            }
            assert forall|k: int| 0 <= k < out@.len() implies seg_wf((#[trigger] out@[k])@) by {
                if k < i {
                    assert(out@[k] == prev[k]);
                } else if k > i {
                    assert(out@[k] == prev[k - 1]);
                }
            }
        }
    }
    out
}

/// The single operand of a one-argument directive: the token after the
/// directive word; more than one token, or none, is an error.
pub open spec fn spec_directive_operand(rest: Seq<u8>) -> Result<Seq<u8>, AsmErrorV> {
    let sp = crate::asmtext::spec_find_space(rest);
    if sp == rest.len() {
        Err(AsmErrorV::ParseError(rest))
    } else {
        let op = spec_trim(rest.skip(sp));
        if op.len() == 0 {
            Err(AsmErrorV::ParseError(op))
        } else if crate::asmtext::spec_find_space(op) != op.len() {
            Err(AsmErrorV::ParseError(op))
        } else {
            Ok(op)
        }
    }
}

/// Read the single operand of a one-argument directive.
fn directive_operand(rest: &[u8]) -> (r: Result<Vec<u8>, AsmError>)
    ensures
        ({
            let sr = spec_directive_operand(rest@);
            match r {
                Ok(op) => sr == Ok::<Seq<u8>, AsmErrorV>(op@),
                Err(e) => sr == Err::<Seq<u8>, AsmErrorV>(e@),
            }
        }),
{
    proof {
        crate::asmtext::lemma_spec_find_space(rest@);
    }
    let sp = crate::asmtext::find_space(rest);
    if sp == rest.len() {
        let t = sub_vec(rest, 0, rest.len());
        proof {
            assert(t@ =~= rest@);
        }
        return Err(AsmError::ParseError(t));
    }
    let opraw = sub_vec(rest, sp, rest.len());
    proof {
        assert(opraw@ =~= rest@.skip(sp as int));
    }
    let op = trim(opraw.as_slice());
    if op.len() == 0 {
        return Err(AsmError::ParseError(op));
    }
    let inner = crate::asmtext::find_space(op.as_slice());
    if inner != op.len() {
        return Err(AsmError::ParseError(op));
    }
    Ok(op)
}

/// Bytes packed into little-endian words laid out from `pc`, one address
/// and word per entry, the last word zero-padded: the data layout of
/// `.string` and `.ascii`, which advances the location counter by four per
/// word — `4 * ceil(n / 4)` bytes in all.
pub open spec fn spec_pack_words(data: Seq<u8>, pc: u32, out: Seq<(u32, u32)>) -> (
    Seq<(u32, u32)>,
    u32,
)
    decreases data.len(),
{
    if data.len() == 0 {
        (out, pc)
    } else {
        let b0 = data[0];
        let b1 = if data.len() > 1 { data[1] } else { 0u8 };
        let b2 = if data.len() > 2 { data[2] } else { 0u8 };
        let b3 = if data.len() > 3 { data[3] } else { 0u8 };
        let word = crate::vram::le32(b0, b1, b2, b3);
        let rest = if data.len() > 4 { data.skip(4) } else { Seq::empty() };
        spec_pack_words(rest, crate::cpu::w_add(pc, 4), out.push((pc, word)))
    }
}

/// Pack bytes into little-endian words starting at `pc0`, recording each
/// word's address; missing bytes of the last word read as zero. Returns
/// the advanced location counter.
fn pack_data_words(data: &[u8], pc0: u32, out: &mut Vec<(u32, u32)>) -> (pc: u32)
    ensures
        final(out)@ == spec_pack_words(data@, pc0, old(out)@).0,
        pc == spec_pack_words(data@, pc0, old(out)@).1,
{
    let m = data.len();
    let mut pc = pc0;
    let mut idx: usize = 0;
    proof {
        assert(data@.skip(0) =~= data@);
    }
    while idx < m
        invariant
            m == data@.len(),
            0 <= idx <= m,
            spec_pack_words(data@.skip(idx as int), pc, out@) == spec_pack_words(
                data@,
                pc0,
                old(out)@,
            ),
        decreases m - idx,
    {
        let ghost remseq = data@.skip(idx as int);
        let rem = m - idx;
        let b0 = data[idx];
        let b1: u8 = if rem > 1 {
            data[idx + 1]
        } else {
            0
        };
        let b2: u8 = if rem > 2 {
            data[idx + 2]
        } else {
            0
        };
        let b3: u8 = if rem > 3 {
            data[idx + 3]
        } else {
            0
        };
        let word = (b0 as u32) | ((b1 as u32) << 8) | ((b2 as u32) << 16) | ((b3 as u32) << 24);
        out.push((pc, word));
        pc = pc.wrapping_add(4);
        proof {
            if rem > 4 {
                assert(remseq.skip(4) =~= data@.skip(idx as int + 4));
            } else {
                assert((if remseq.len() > 4 {
                    remseq.skip(4)
                } else {
                    Seq::<u8>::empty()
                }) =~= data@.skip(m as int));
            }
        }
        if rem > 4 {
            idx = idx + 4;
        } else {
            idx = m;
        }
    }
    proof {
        assert(data@.skip(m as int) =~= Seq::<u8>::empty());
    }
    pc
}

/// A code/data segment holding `words` from `base` up.
pub open spec fn code_seg(base: u32, words: Seq<u32>) -> SegView {
    SegView {
        kind: SegmentKind::CodeData,
        base_addr: base,
        length_words: words.len() as u32,
        words: words,
    }
}

/// Maximal runs of 4-byte-consecutive addresses grouped into code/data
/// segments, walking the sorted sparse map left to right with the open
/// run carried along.
pub open spec fn spec_group_acc(
    mem: Seq<(u32, u32)>,
    started: bool,
    base: u32,
    words: Seq<u32>,
    prev: u32,
) -> Seq<SegView>
    decreases mem.len(),
{
    if mem.len() == 0 {
        if started && words.len() > 0 {
            seq![code_seg(base, words)]
        } else {
            Seq::empty()
        }
    } else {
        let addr = mem[0].0;
        let word = mem[0].1;
        if !started || addr != crate::cpu::w_add(prev, 4) {
            let flushed: Seq<SegView> = if started && words.len() > 0 {
                seq![code_seg(base, words)]
            } else {
                Seq::empty()
            };
            flushed + spec_group_acc(mem.skip(1), true, addr, seq![word], addr)
        } else {
            spec_group_acc(mem.skip(1), started, base, words.push(word), addr)
        }
    }
}

/// The segments of a sorted sparse word map: its maximal consecutive runs.
pub open spec fn spec_group(mem: Seq<(u32, u32)>) -> Seq<SegView> {
    spec_group_acc(mem, false, 0, Seq::empty(), 0)
}

/// The BSS reservations as segments: base and word count, no payload.
pub open spec fn bss_views(bss: Seq<(u32, u32)>) -> Seq<SegView> {
    bss.map_values(
        |e: (u32, u32)|
            SegView {
                kind: SegmentKind::Bss,
                base_addr: e.0,
                length_words: e.1,
                words: Seq::empty(),
            },
    )
}

/// The first pass's running state: the location counter, the name tables,
/// and the laid-out instructions, data words and BSS reservations.
#[verifier::ext_equal]
pub ghost struct Pass1 {
    pub pc: u32,
    pub labels: Seq<(Seq<u8>, u32)>,
    pub equates: Seq<(Seq<u8>, u32)>,
    pub items: Seq<(u32, InstrV)>,
    pub data: Seq<(u32, u32)>,
    pub bss: Seq<(u32, u32)>,
}

/// The state the first pass starts from.
pub open spec fn init_pass1() -> Pass1 {
    Pass1 {
        pc: 0,
        labels: Seq::empty(),
        equates: Seq::empty(),
        items: Seq::empty(),
        data: Seq::empty(),
        bss: Seq::empty(),
    }
}

/// Laid-out instruction items as contracts see them.
pub open spec fn items_view(v: Seq<(u32, Instruction)>) -> Seq<(u32, InstrV)> {
    v.map_values(|it: (u32, Instruction)| (it.0, it.1@))
}

/// A prefix test over byte sequences, as `has_prefix` decides it.
pub open spec fn has_prefix_spec(s: Seq<u8>, p: Seq<u8>) -> bool {
    s.len() >= p.len() && s.take(p.len() as int) == p
}

/// Expanded instructions placed one word apart from `pc` on.
pub open spec fn spec_append_items(items: Seq<(u32, InstrV)>, pc: u32, v: Seq<InstrV>) -> (
    Seq<(u32, InstrV)>,
    u32,
)
    decreases v.len(),
{
    if v.len() == 0 {
        (items, pc)
    } else {
        spec_append_items(items.push((pc, v[0])), crate::cpu::w_add(pc, 4), v.skip(1))
    }
}

/// One directive applied to the first pass's state: `.equ` records an
/// equate; `.string`/`.ascii` lay their words out at the location counter;
/// `.org` moves it; `.bss` records a reservation and skips it; `.text` and
/// `.data` do nothing; anything else is an error.
#[verifier::opaque]
pub open spec fn spec_directive(rt: Seq<u8>, st: Pass1) -> Result<Pass1, AsmErrorV> {
    if has_prefix_spec(rt, ".equ".spec_bytes()) {
        match spec_parse_equ(rt, st.equates) {
            Err(e) => Err(e),
            Ok(nv) => Ok(Pass1 { equates: st.equates.push(nv), ..st }),
        }
    } else if has_prefix_spec(rt, ".string".spec_bytes()) {
        match spec_parse_string(rt) {
            Err(e) => Err(e),
            Ok(bytes) => {
                let packed = spec_pack_words(bytes, st.pc, st.data);
                Ok(Pass1 { data: packed.0, pc: packed.1, ..st })
            },
        }
    } else if has_prefix_spec(rt, ".ascii".spec_bytes()) {
        match spec_parse_quoted(rt) {
            Err(e) => Err(e),
            Ok(bytes) => {
                let packed = spec_pack_words(bytes, st.pc, st.data);
                Ok(Pass1 { data: packed.0, pc: packed.1, ..st })
            },
        }
    } else if has_prefix_spec(rt, ".org".spec_bytes()) {
        match spec_directive_operand(rt) {
            Err(e) => Err(e),
            Ok(op) => match spec_parse_u32(op, st.equates) {
                None => Err(AsmErrorV::InvalidImmediate(spec_trim(op))),
                Some(a) => Ok(Pass1 { pc: a, ..st }),
            },
        }
    } else if has_prefix_spec(rt, ".bss".spec_bytes()) {
        match spec_directive_operand(rt) {
            Err(e) => Err(e),
            Ok(op) => match spec_parse_u32(op, st.equates) {
                None => Err(AsmErrorV::InvalidImmediate(spec_trim(op))),
                Some(count) => Ok(
                    Pass1 {
                        bss: st.bss.push((st.pc, count)),
                        pc: crate::cpu::w_add(
                            st.pc,
                            vstd::wrapping::u32_specs::wrapping_mul(count, 4),
                        ),
                        ..st
                    },
                ),
            },
        }
    } else if has_prefix_spec(rt, ".text".spec_bytes()) || has_prefix_spec(
        rt,
        ".data".spec_bytes(),
    ) {
        Ok(st)
    } else {
        Err(AsmErrorV::ParseError(rt))
    }
}

/// One comment-stripped source line applied to the first pass's state: a
/// blank line does nothing; a leading `label:` must be new and is recorded
/// at the location counter; what follows is a directive or an instruction.
#[verifier::opaque]
pub open spec fn spec_line(l: Seq<u8>, st: Pass1) -> Result<Pass1, AsmErrorV> {
    if spec_trim(l).len() == 0 {
        Ok(st)
    } else {
        let i = spec_find(l, 58);
        let has_label = i < l.len();
        let lab = spec_trim(l.take(i));
        if has_label && lab.len() == 0 {
            Err(AsmErrorV::ParseError(l))
        } else if has_label && spec_lookup(st.labels, lab) is Some {
            Err(AsmErrorV::ParseError(lab))
        } else {
            let st1 = if has_label {
                Pass1 { labels: st.labels.push((lab, st.pc)), ..st }
            } else {
                st
            };
            let rest = if has_label {
                l.skip(i + 1)
            } else {
                l
            };
            let rt = spec_trim(rest);
            if rt.len() == 0 {
                Ok(st1)
            } else if rt[0] == 46 {
                spec_directive(rt, st1)
            } else {
                match spec_parse_instruction(rt, st1.equates) {
                    Err(e) => Err(e),
                    Ok(v) => {
                        let placed = spec_append_items(st1.items, st1.pc, v);
                        Ok(Pass1 { items: placed.0, pc: placed.1, ..st1 })
                    },
                }
            }
        }
    }
}

/// The whole first pass from byte offset `pos`: lines split at newlines, a
/// trailing carriage return and the comment dropped from each, every line
/// applied in order.
pub open spec fn spec_pass1(b: Seq<u8>, pos: int, st: Pass1) -> Result<Pass1, AsmErrorV>
    decreases b.len() - pos,
    via spec_pass1_decreases
{
    if pos < 0 || pos >= b.len() {
        Ok(st)
    } else {
        let nl = pos + spec_find(b.skip(pos), 10);
        let raw0 = b.subrange(pos, nl);
        let raw = if raw0.len() > 0 && raw0.last() == 13 {
            raw0.drop_last()
        } else {
            raw0
        };
        let l = raw.take(spec_comment_start(raw));
        let nxt = if nl < b.len() {
            nl + 1
        } else {
            b.len() as int
        };
        match spec_line(l, st) {
            Err(e) => Err(e),
            Ok(st2) => spec_pass1(b, nxt, st2),
        }
    }
}

#[via_fn]
proof fn spec_pass1_decreases(b: Seq<u8>, pos: int, st: Pass1) {
    if 0 <= pos < b.len() {
        crate::asmtext::lemma_spec_find(b.skip(pos), 10);
    }
}

/// The data words folded into the sparse map, in order.
pub open spec fn spec_fill_data(mem: Seq<(u32, u32)>, data: Seq<(u32, u32)>) -> Seq<(u32, u32)>
    decreases data.len(),
{
    if data.len() == 0 {
        mem
    } else {
        spec_fill_data(spec_upsert(mem, data[0].0, data[0].1), data.skip(1))
    }
}

/// The second pass over the laid-out instructions: each encoded at its
/// address against the finished tables and folded into the sparse map;
/// the first resolution error wins.
pub open spec fn spec_encode_items(
    mem: Seq<(u32, u32)>,
    items: Seq<(u32, InstrV)>,
    labels: Seq<(Seq<u8>, u32)>,
    equates: Seq<(Seq<u8>, u32)>,
) -> Result<Seq<(u32, u32)>, AsmErrorV>
    decreases items.len(),
{
    if items.len() == 0 {
        Ok(mem)
    } else {
        match spec_encode_instruction(items[0].1, labels, equates, items[0].0) {
            Err(e) => Err(e),
            Ok(w) => spec_encode_items(
                spec_upsert(mem, items[0].0, w),
                items.skip(1),
                labels,
                equates,
            ),
        }
    }
}

/// The whole assembler as a function of the source bytes: the first pass
/// lays everything out, the second encodes and fills the sparse word map,
/// and the result is the grouped code/data runs plus the BSS reservations,
/// sorted by base address.
pub open spec fn spec_assemble(b: Seq<u8>) -> Result<Seq<SegView>, AsmErrorV> {
    match spec_pass1(b, 0, init_pass1()) {
        Err(e) => Err(e),
        Ok(st) => match spec_encode_items(
            spec_fill_data(Seq::empty(), st.data),
            st.items,
            st.labels,
            st.equates,
        ) {
            Err(e) => Err(e),
            Ok(m) => Ok(spec_sort_segs(spec_group(m) + bss_views(st.bss))),
        },
    }
}

/// Apply one comment-stripped source line to the first pass's state:
/// exactly the step `spec_line` describes.
#[verifier::rlimit(100)]
#[verifier::spinoff_prover]
fn apply_line(
    line: &[u8],
    pc: &mut u32,
    labels: &mut Vec<(Vec<u8>, u32)>,
    equates: &mut Vec<(Vec<u8>, u32)>,
    items: &mut Vec<(u32, Instruction)>,
    data_words: &mut Vec<(u32, u32)>,
    bss_segments: &mut Vec<(u32, u32)>,
) -> (r: Result<(), AsmError>)
    ensures
        ({
            let st0 = Pass1 {
                pc: *old(pc),
                labels: tbl_view(old(labels)@),
                equates: tbl_view(old(equates)@),
                items: items_view(old(items)@),
                data: old(data_words)@,
                bss: old(bss_segments)@,
            };
            let stn = Pass1 {
                pc: *final(pc),
                labels: tbl_view(final(labels)@),
                equates: tbl_view(final(equates)@),
                items: items_view(final(items)@),
                data: final(data_words)@,
                bss: final(bss_segments)@,
            };
            match r {
                Ok(u) => spec_line(line@, st0) == Ok::<Pass1, AsmErrorV>(stn),
                Err(e) => spec_line(line@, st0) == Err::<Pass1, AsmErrorV>(e@),
            }
        }),
{
    let ghost st0 = Pass1 {
        pc: *pc,
        labels: tbl_view(labels@),
        equates: tbl_view(equates@),
        items: items_view(items@),
        data: data_words@,
        bss: bss_segments@,
    };
    let lt = trim(line);
    if lt.len() == 0 {
        proof {
            reveal(spec_line);
            crate::asmtext::lemma_spec_find(line@, 58);
            assert(spec_line(line@, st0) == Ok::<Pass1, AsmErrorV>(st0));
        }
        return Ok(());
    }
    let (label_opt, rest) = match split_label(line) {
        Ok(p) => p,
        Err(e) => {
            let ghost ev = e@;
            proof {
                reveal(spec_line);
                crate::asmtext::lemma_spec_find(line@, 58);
                assert(spec_line(line@, st0) == Err::<Pass1, AsmErrorV>(ev));
            }
            return Err(e);
        },
    };
    if let Some(label) = label_opt {
        if lookup(labels, label.as_slice()).is_some() {
            let ghost labname = label@;
            proof {
                reveal(spec_line);
                crate::asmtext::lemma_spec_find(line@, 58);
                assert(spec_line(line@, st0) == Err::<Pass1, AsmErrorV>(
                    AsmErrorV::ParseError(labname),
                ));
            }
            return Err(AsmError::ParseError(label));
        }
        let ghost labname = label@;
        labels.push((label, *pc));
        proof {
            assert(tbl_view(labels@) =~= st0.labels.push((labname, st0.pc)));
        }
    }
    let ghost st1 = Pass1 { labels: tbl_view(labels@), ..st0 };
    let rest_t = trim(rest.as_slice());
    if rest_t.len() == 0 {
        proof {
            reveal(spec_line);
            crate::asmtext::lemma_spec_find(line@, 58);
            let i = spec_find(line@, 58);
            if i < line@.len() {
                assert(st1 =~= (Pass1 {
                    labels: st0.labels.push((spec_trim(line@.take(i)), st0.pc)),
                    ..st0
                }));
            } else {
                assert(st1 =~= st0);
            }
            assert(spec_line(line@, st0) == Ok::<Pass1, AsmErrorV>(st1));
        }
        return Ok(());
    }
    if rest_t[0] == 46 {
        // Directive.
        if crate::asmtext::has_prefix(rest_t.as_slice(), ".equ".as_bytes()) {
            match parse_equ_directive(rest_t.as_slice(), equates) {
                Ok(u) => {},
                Err(e) => {
                    let ghost ev = e@;
                    proof {
                        reveal(spec_line);
                        crate::asmtext::lemma_spec_find(line@, 58);
                        reveal(spec_directive);
                        assert(spec_line(line@, st0) == Err::<Pass1, AsmErrorV>(ev));
                    }
                    return Err(e);
                },
            }
        } else if crate::asmtext::has_prefix(rest_t.as_slice(), ".string".as_bytes()) {
            let data = match parse_string_directive(rest_t.as_slice()) {
                Ok(d) => d,
                Err(e) => {
                    let ghost ev = e@;
                    proof {
                        reveal(spec_line);
                        crate::asmtext::lemma_spec_find(line@, 58);
                        reveal(spec_directive);
                        assert(spec_line(line@, st0) == Err::<Pass1, AsmErrorV>(ev));
                    }
                    return Err(e);
                },
            };
            *pc = pack_data_words(data.as_slice(), *pc, data_words);
        } else if crate::asmtext::has_prefix(rest_t.as_slice(), ".ascii".as_bytes()) {
            let data = match parse_ascii_directive(rest_t.as_slice()) {
                Ok(d) => d,
                Err(e) => {
                    let ghost ev = e@;
                    proof {
                        reveal(spec_line);
                        crate::asmtext::lemma_spec_find(line@, 58);
                        reveal(spec_directive);
                        assert(spec_line(line@, st0) == Err::<Pass1, AsmErrorV>(ev));
                    }
                    return Err(e);
                },
            };
            *pc = pack_data_words(data.as_slice(), *pc, data_words);
        } else if crate::asmtext::has_prefix(rest_t.as_slice(), ".org".as_bytes()) {
            let op = match directive_operand(rest_t.as_slice()) {
                Ok(o) => o,
                Err(e) => {
                    let ghost ev = e@;
                    proof {
                        reveal(spec_line);
                        crate::asmtext::lemma_spec_find(line@, 58);
                        reveal(spec_directive);
                        assert(spec_line(line@, st0) == Err::<Pass1, AsmErrorV>(ev));
                    }
                    return Err(e);
                },
            };
            let addr = match parse_u32(op.as_slice(), equates) {
                Ok(a) => a,
                Err(e) => {
                    let ghost ev = e@;
                    proof {
                        reveal(spec_line);
                        crate::asmtext::lemma_spec_find(line@, 58);
                        reveal(spec_directive);
                        crate::asmtext::lemma_trim_idempotent(op@);
                        assert(spec_line(line@, st0) == Err::<Pass1, AsmErrorV>(ev));
                    }
                    return Err(e);
                },
            };
            *pc = addr;
        } else if crate::asmtext::has_prefix(rest_t.as_slice(), ".bss".as_bytes()) {
            let op = match directive_operand(rest_t.as_slice()) {
                Ok(o) => o,
                Err(e) => {
                    let ghost ev = e@;
                    proof {
                        reveal(spec_line);
                        crate::asmtext::lemma_spec_find(line@, 58);
                        reveal(spec_directive);
                        assert(spec_line(line@, st0) == Err::<Pass1, AsmErrorV>(ev));
                    }
                    return Err(e);
                },
            };
            let count_words = match parse_u32(op.as_slice(), equates) {
                Ok(a) => a,
                Err(e) => {
                    let ghost ev = e@;
                    proof {
                        reveal(spec_line);
                        crate::asmtext::lemma_spec_find(line@, 58);
                        reveal(spec_directive);
                        crate::asmtext::lemma_trim_idempotent(op@);
                        assert(spec_line(line@, st0) == Err::<Pass1, AsmErrorV>(ev));
                    }
                    return Err(e);
                },
            };
            bss_segments.push((*pc, count_words));
            *pc = pc.wrapping_add(count_words.wrapping_mul(4));
        } else if crate::asmtext::has_prefix(rest_t.as_slice(), ".text".as_bytes())
            || crate::asmtext::has_prefix(rest_t.as_slice(), ".data".as_bytes()) {
            // Single-section assembler: both are no-ops.
        } else {
            let ghost rtv = rest_t@;
            proof {
                reveal(spec_line);
                crate::asmtext::lemma_spec_find(line@, 58);
                reveal(spec_directive);
                assert(spec_line(line@, st0) == Err::<Pass1, AsmErrorV>(
                    AsmErrorV::ParseError(rtv),
                ));
            }
            return Err(AsmError::ParseError(rest_t));
        }
        proof {
            reveal(spec_line);
            crate::asmtext::lemma_spec_find(line@, 58);
            reveal(spec_directive);
            let stn = Pass1 {
                pc: *pc,
                labels: tbl_view(labels@),
                equates: tbl_view(equates@),
                items: items_view(items@),
                data: data_words@,
                bss: bss_segments@,
            };
            assert(spec_directive(spec_trim(rest@), st1) == Ok::<Pass1, AsmErrorV>(stn));
            assert(spec_line(line@, st0) == Ok::<Pass1, AsmErrorV>(stn));
        }
        Ok(())
    } else {
        // An instruction, possibly expanding to two.
        let mut instrs = match parse_instruction(rest_t.as_slice(), equates) {
            Ok(v) => v,
            Err(e) => {
                let ghost ev = e@;
                proof {
                    reveal(spec_line);
                    crate::asmtext::lemma_spec_find(line@, 58);
                    assert(spec_line(line@, st0) == Err::<Pass1, AsmErrorV>(ev));
                }
                return Err(e);
            },
        };
        let ghost vfull = instrs_view(instrs@);
        let ghost items1 = items_view(items@);
        let ghost pc1 = *pc;
        proof {
            assert(instrs_view(instrs@) =~= vfull.skip(0));
        }
        while instrs.len() > 0
            invariant
                spec_append_items(items_view(items@), *pc, instrs_view(instrs@))
                    == spec_append_items(items1, pc1, vfull),
            decreases instrs@.len(),
        {
            let ghost iv_pre = instrs_view(instrs@);
            let ghost items_pre = items_view(items@);
            let instr = instrs.remove(0);
            let ghost instrv = instr@;
            items.push((*pc, instr));
            proof {
                assert(instrs_view(instrs@) =~= iv_pre.skip(1));
                assert(items_view(items@) =~= items_pre.push((*pc, instrv)));
                assert(iv_pre[0] == instrv);
            }
            *pc = pc.wrapping_add(4);
        }
        proof {
            reveal(spec_line);
            crate::asmtext::lemma_spec_find(line@, 58);
            assert(instrs_view(instrs@) =~= Seq::<InstrV>::empty());
            let stn = Pass1 {
                pc: *pc,
                labels: tbl_view(labels@),
                equates: tbl_view(equates@),
                items: items_view(items@),
                data: data_words@,
                bss: bss_segments@,
            };
            assert(spec_line(line@, st0) == Ok::<Pass1, AsmErrorV>(stn));
        }
        Ok(())
    }
}

/// Assemble UTF-8 source text into NV32 segments.
///
/// Pass one walks the lines: it strips comments, records labels and
/// equates, lays out string and BSS data, expands pseudo-ops, and assigns
/// each instruction its address. Pass two resolves names, encodes every
/// instruction, and groups the words into maximal runs of consecutive
/// addresses. The result is the segment list, each code/data segment
/// carrying exactly `length_words` words and each BSS segment none, sorted
/// by base address: exactly what `spec_assemble` makes of the source
/// bytes, or the first error it raises.
#[verifier::rlimit(100)]
#[verifier::spinoff_prover]
pub fn assemble_nv32(source: &str) -> (r: Result<Vec<NvSegment>, AsmError>)
    ensures
        match r {
            Ok(segs) => ({
                &&& spec_assemble(source.spec_bytes()) == Ok::<Seq<SegView>, AsmErrorV>(
                    segs@.map_values(|s: NvSegment| s@),
                )
                &&& forall|k: int| 0 <= k < segs@.len() ==> seg_wf((#[trigger] segs@[k])@)
                &&& segs_sorted(segs@.map_values(|s: NvSegment| s@))
            }),
            Err(e) => spec_assemble(source.spec_bytes()) == Err::<Seq<SegView>, AsmErrorV>(e@),
        },
{
    let bytes = source.as_bytes();
    let n = bytes.len();
    let ghost bv = bytes@;

    // Pass one: labels, equates, instruction layout, data and BSS layout.
    let mut labels: Vec<(Vec<u8>, u32)> = Vec::new();
    let mut equates: Vec<(Vec<u8>, u32)> = Vec::new();
    let mut items: Vec<(u32, Instruction)> = Vec::new();
    let mut data_words: Vec<(u32, u32)> = Vec::new();
    let mut bss_segments: Vec<(u32, u32)> = Vec::new();
    let mut pc: u32 = 0;

    proof {
        assert(tbl_view(labels@) =~= Seq::<(Seq<u8>, u32)>::empty());
        assert(items_view(items@) =~= Seq::<(u32, InstrV)>::empty());
        assert((Pass1 {
            pc: pc,
            labels: tbl_view(labels@),
            equates: tbl_view(labels@),
            items: items_view(items@),
            data: data_words@,
            bss: bss_segments@,
        }) =~= init_pass1());
    }

    let mut pos: usize = 0;
    while pos < n
        invariant
            n == bv.len(),
            bv == bytes@,
            bv == source.spec_bytes(),
            0 <= pos <= n,
            spec_pass1(
                bv,
                pos as int,
                Pass1 {
                    pc: pc,
                    labels: tbl_view(labels@),
                    equates: tbl_view(equates@),
                    items: items_view(items@),
                    data: data_words@,
                    bss: bss_segments@,
                },
            ) == spec_pass1(bv, 0, init_pass1()),
        decreases n - pos,
    {
        let ghost pos0 = pos as int;
        let ghost st0 = Pass1 {
            pc: pc,
            labels: tbl_view(labels@),
            equates: tbl_view(equates@),
            items: items_view(items@),
            data: data_words@,
            bss: bss_segments@,
        };
        let mut nl = pos;
        while nl < n && bytes[nl] != 10
            invariant
                pos <= nl <= n,
                n == bv.len(),
                bv == bytes@,
                forall|k: int| pos <= k < nl ==> bv[k] != 10,
            decreases n - nl,
        {
            nl = nl + 1;
        }
        proof {
            assert forall|k: int| 0 <= k < nl - pos0 implies (#[trigger] bv.skip(pos0)[k])
                != 10 by {
                assert(bv.skip(pos0)[k] == bv[pos0 + k]);
            }
            if nl < n {
                assert(bv.skip(pos0)[nl - pos0] == bv[nl as int]);
            }
            crate::asmtext::lemma_find_unique(bv.skip(pos0), 10, nl - pos0);
        }
        let ghost raw0g = bv.subrange(pos0, nl as int);
        let mut raw_line = sub_vec(bytes, pos, nl);
        if raw_line.len() > 0 && raw_line[raw_line.len() - 1] == 13 {
            let _cr = raw_line.pop();
        }
        proof {
            assert(raw_line@ == (if raw0g.len() > 0 && raw0g.last() == 13 {
                raw0g.drop_last()
            } else {
                raw0g
            }));
        }
        pos = if nl < n {
            nl + 1
        } else {
            n
        };

        let line = strip_comment(raw_line.as_slice());
        match apply_line(
            line.as_slice(),
            &mut pc,
            &mut labels,
            &mut equates,
            &mut items,
            &mut data_words,
            &mut bss_segments,
        ) {
            Ok(u) => {
                proof {
                    let stn = Pass1 {
                        pc: pc,
                        labels: tbl_view(labels@),
                        equates: tbl_view(equates@),
                        items: items_view(items@),
                        data: data_words@,
                        bss: bss_segments@,
                    };
                    assert(spec_line(line@, st0) == Ok::<Pass1, AsmErrorV>(stn));
                    assert(spec_pass1(bv, pos0, st0) == spec_pass1(bv, pos as int, stn));
                }
            },
            Err(e) => {
                proof {
                    assert(spec_line(line@, st0) == Err::<Pass1, AsmErrorV>(e@));
                    assert(spec_pass1(bv, pos0, st0) == Err::<Pass1, AsmErrorV>(e@));
                }
                return Err(e);
            },
        }
    }
    proof {
        assert(spec_pass1(bv, 0, init_pass1()) == Ok::<Pass1, AsmErrorV>(
            Pass1 {
                pc: pc,
                labels: tbl_view(labels@),
                equates: tbl_view(equates@),
                items: items_view(items@),
                data: data_words@,
                bss: bss_segments@,
            },
        ));
    }
    let ghost labelsv = tbl_view(labels@);
    let ghost equatesv = tbl_view(equates@);
    let ghost itemsv = items_view(items@);
    let ghost datav = data_words@;

    // Pass two: encode into the sparse word map.
    let mut mem: Vec<(u32, u32)> = Vec::new();
    let mut di: usize = 0;
    proof {
        assert(mem@ =~= Seq::<(u32, u32)>::empty());
        assert(datav.skip(0) =~= datav);
    }
    while di < data_words.len()
        invariant
            mem_sorted(mem@),
            datav == data_words@,
            0 <= di <= datav.len(),
            spec_fill_data(mem@, datav.skip(di as int)) == spec_fill_data(Seq::empty(), datav),
        decreases data_words@.len() - di,
    {
        proof {
            assert(datav.skip(di as int)[0] == datav[di as int]);
            assert(datav.skip(di as int).skip(1) =~= datav.skip(di as int + 1));
        }
        insert_word(&mut mem, data_words[di].0, data_words[di].1);
        di = di + 1;
    }
    proof {
        assert(datav.skip(datav.len() as int) =~= Seq::<(u32, u32)>::empty());
    }
    let ghost mem0 = mem@;
    proof {
        assert(itemsv.skip(0) =~= itemsv);
    }
    while items.len() > 0
        invariant
            mem_sorted(mem@),
            labelsv == tbl_view(labels@),
            equatesv == tbl_view(equates@),
            bv == source.spec_bytes(),
            spec_pass1(bv, 0, init_pass1()) == Ok::<Pass1, AsmErrorV>(
                Pass1 {
                    pc: pc,
                    labels: labelsv,
                    equates: equatesv,
                    items: itemsv,
                    data: datav,
                    bss: bss_segments@,
                },
            ),
            spec_fill_data(Seq::empty(), datav) == mem0,
            spec_encode_items(mem@, items_view(items@), labelsv, equatesv) == spec_encode_items(
                mem0,
                itemsv,
                labelsv,
                equatesv,
            ),
        decreases items@.len(),
    {
        let ghost iv_pre = items_view(items@);
        let (addr, instr) = items.remove(0);
        let ghost instrv = instr@;
        proof {
            assert(items_view(items@) =~= iv_pre.skip(1));
            assert(iv_pre[0] == (addr, instrv));
        }
        let word = match encode_instruction(instr, &labels, &equates, addr) {
            Ok(w) => w,
            Err(e) => {
                proof {
                    assert(spec_encode_instruction(instrv, labelsv, equatesv, addr) == Err::<
                        u32,
                        AsmErrorV,
                    >(e@));
                    assert(spec_encode_items(mem@, iv_pre, labelsv, equatesv) == Err::<
                        Seq<(u32, u32)>,
                        AsmErrorV,
                    >(e@));
                    assert(spec_encode_items(mem0, itemsv, labelsv, equatesv) == Err::<
                        Seq<(u32, u32)>,
                        AsmErrorV,
                    >(e@));
                    assert(spec_assemble(bv) == Err::<Seq<SegView>, AsmErrorV>(e@));
                }
                return Err(e);
            },
        };
        insert_word(&mut mem, addr, word);
    }
    proof {
        assert(items_view(items@) =~= Seq::<(u32, InstrV)>::empty());
        assert(spec_encode_items(mem0, itemsv, labelsv, equatesv) == Ok::<
            Seq<(u32, u32)>,
            AsmErrorV,
        >(mem@));
    }

    // Group maximal runs of consecutive addresses into code/data segments.
    let ghost memv = mem@;
    let mut segments: Vec<NvSegment> = Vec::new();
    let mut cur_base: u32 = 0;
    let mut cur_words: Vec<u32> = Vec::new();
    let mut prev_addr: u32 = 0;
    let mut started = false;
    let mut mi: usize = 0;
    proof {
        assert(memv.skip(0) =~= memv);
        assert(segments@.map_values(|x: NvSegment| x@) =~= Seq::<SegView>::empty());
        assert(cur_words@ =~= Seq::<u32>::empty());
    }
    while mi < mem.len()
        invariant
            memv == mem@,
            mem_sorted(memv),
            forall|k: int| 0 <= k < segments@.len() ==> seg_wf((#[trigger] segments@[k])@),
            mi <= memv.len(),
            started <==> mi > 0,
            !started ==> cur_words@ == Seq::<u32>::empty(),
            started ==> cur_words@.len() >= 1 && cur_base + 4 * (cur_words@.len() - 1)
                == prev_addr && prev_addr == memv[mi - 1].0,
            segments@.map_values(|x: NvSegment| x@) + spec_group_acc(
                memv.skip(mi as int),
                started,
                cur_base,
                cur_words@,
                prev_addr,
            ) == spec_group(memv),
        decreases memv.len() - mi,
    {
        let ghost segs_pre = segments@.map_values(|x: NvSegment| x@);
        let ghost words_pre = cur_words@;
        let (addr, word) = mem[mi];
        proof {
            assert(memv.skip(mi as int)[0] == memv[mi as int]);
            assert(memv.skip(mi as int).skip(1) =~= memv.skip(mi as int + 1));
        }
        if !started || addr != prev_addr.wrapping_add(4) {
            if started && cur_words.len() > 0 {
                let len32 = cur_words.len() as u32;
                segments.push(
                    NvSegment {
                        kind: SegmentKind::CodeData,
                        base_addr: cur_base,
                        length_words: len32,
                        words: cur_words,
                    },
                );
                cur_words = Vec::new();
                proof {
                    assert(segments@.map_values(|x: NvSegment| x@) =~= segs_pre.push(
                        code_seg(cur_base, words_pre),
                    ));
                    assert(segs_pre + (seq![code_seg(cur_base, words_pre)] + spec_group_acc(
                        memv.skip(mi as int + 1),
                        true,
                        addr,
                        seq![word],
                        addr,
                    )) =~= segs_pre.push(code_seg(cur_base, words_pre)) + spec_group_acc(
                        memv.skip(mi as int + 1),
                        true,
                        addr,
                        seq![word],
                        addr,
                    ));
                }
            } else {
                proof {
                    assert(segs_pre + (Seq::<SegView>::empty() + spec_group_acc(
                        memv.skip(mi as int + 1),
                        true,
                        addr,
                        seq![word],
                        addr,
                    )) =~= segs_pre + spec_group_acc(
                        memv.skip(mi as int + 1),
                        true,
                        addr,
                        seq![word],
                        addr,
                    ));
                }
            }
            cur_base = addr;
            started = true;
            cur_words.push(word);
            proof {
                assert(cur_words@ =~= seq![word]);
            }
        } else {
            // Inside a run the sorted map steps by exactly four, so the
            // run's addresses never wrap and its length stays bounded.
            proof {
                assert(memv[mi - 1].0 < memv[mi as int].0);
            }
            cur_words.push(word);
        }
        prev_addr = addr;
        mi = mi + 1;
    }
    if started && cur_words.len() > 0 {
        let ghost segs_pre = segments@.map_values(|x: NvSegment| x@);
        let ghost words_pre = cur_words@;
        let len32 = cur_words.len() as u32;
        segments.push(
            NvSegment {
                kind: SegmentKind::CodeData,
                base_addr: cur_base,
                length_words: len32,
                words: cur_words,
            },
        );
        proof {
            assert(memv.skip(memv.len() as int) =~= Seq::<(u32, u32)>::empty());
            assert(segments@.map_values(|x: NvSegment| x@) =~= segs_pre.push(
                code_seg(cur_base, words_pre),
            ));
            assert(segs_pre + seq![code_seg(cur_base, words_pre)] =~= segs_pre.push(
                code_seg(cur_base, words_pre),
            ));
        }
    } else {
        proof {
            assert(memv.skip(memv.len() as int) =~= Seq::<(u32, u32)>::empty());
            assert(segments@.map_values(|x: NvSegment| x@) + Seq::<SegView>::empty()
                =~= segments@.map_values(|x: NvSegment| x@));
        }
    }

    // Append the BSS reservations, then order everything by base address.
    let ghost bssv = bss_segments@;
    let mut bi: usize = 0;
    proof {
        assert(bss_views(bssv.take(0)) =~= Seq::<SegView>::empty());
        assert(segments@.map_values(|x: NvSegment| x@) + Seq::<SegView>::empty()
            =~= segments@.map_values(|x: NvSegment| x@));
    }
    while bi < bss_segments.len()
        invariant
            bssv == bss_segments@,
            forall|k: int| 0 <= k < segments@.len() ==> seg_wf((#[trigger] segments@[k])@),
            0 <= bi <= bssv.len(),
            segments@.map_values(|x: NvSegment| x@) == spec_group(memv) + bss_views(
                bssv.take(bi as int),
            ),
        decreases bssv.len() - bi,
    {
        let ghost segs_pre = segments@.map_values(|x: NvSegment| x@);
        let (base, len_words) = bss_segments[bi];
        let empty_words: Vec<u32> = Vec::new();
        proof {
            assert(empty_words@ =~= Seq::<u32>::empty());
        }
        segments.push(
            NvSegment {
                kind: SegmentKind::Bss,
                base_addr: base,
                length_words: len_words,
                words: empty_words,
            },
        );
        proof {
            assert(segments@.map_values(|x: NvSegment| x@) =~= segs_pre.push(
                SegView {
                    kind: SegmentKind::Bss,
                    base_addr: base,
                    length_words: len_words,
                    words: Seq::empty(),
                },
            ));
            assert(bssv.take(bi as int + 1) =~= bssv.take(bi as int).push(bssv[bi as int]));
            assert(bss_views(bssv.take(bi as int + 1)) =~= bss_views(bssv.take(bi as int)).push(
                SegView {
                    kind: SegmentKind::Bss,
                    base_addr: base,
                    length_words: len_words,
                    words: Seq::empty(),
                },
            ));
            assert(segments@.map_values(|x: NvSegment| x@) =~= spec_group(memv) + bss_views(
                bssv.take(bi as int + 1),
            ));
        }
        bi = bi + 1;
    }
    proof {
        assert(bssv.take(bssv.len() as int) =~= bssv);
    }

    let out = sort_segments(segments);
    proof {
        assert(spec_assemble(bv) == Ok::<Seq<SegView>, AsmErrorV>(
            out@.map_values(|s: NvSegment| s@),
        ));
    }
    Ok(out)
}

} // verus!
