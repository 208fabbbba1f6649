//! Assembler and NV32 container tests: token parsing, exact encodings,
//! label resolution, directives, error kinds, and the byte-exact container
//! round trip.

use nova3201::assembler::{
    assemble_nv32, get_label_addr, lookup, parse_char_literal, parse_imm, parse_reg,
    parse_u32_literal, split_label, strip_comment, AsmError,
};
use nova3201::cpu::Instruction;
use nova3201::isa::op_str;
use nova3201::nv32::{parse_nv32, write_nv32, NvSegment, Nv32Error, SegmentKind};

/// The single code segment of an assembled source.
fn words_of(src: &str) -> Vec<u32> {
    let segs = assemble_nv32(src).expect("assembly failed");
    assert_eq!(segs.len(), 1);
    assert_eq!(segs[0].kind, SegmentKind::CodeData);
    segs[0].words.clone()
}

#[test]
fn parse_reg_accepts_and_rejects() {
    assert_eq!(parse_reg(b" r0 ").unwrap(), 0);
    assert_eq!(parse_reg(b"R31").unwrap(), 31);
    assert!(matches!(parse_reg(b"r32"), Err(AsmError::InvalidRegister(_))));
    assert!(matches!(parse_reg(b"x1"), Err(AsmError::InvalidRegister(_))));
    assert!(matches!(parse_reg(b"r"), Err(AsmError::InvalidRegister(_))));
    assert!(matches!(parse_reg(b"r300"), Err(AsmError::InvalidRegister(_))));
}

#[test]
fn parse_imm_forms() {
    assert_eq!(parse_imm(b"42").unwrap(), 42);
    assert_eq!(parse_imm(b"-42").unwrap(), -42);
    assert_eq!(parse_imm(b"0x1234").unwrap(), 0x1234);
    assert_eq!(parse_imm(b"0xFFFF").unwrap(), -1, "hex is a raw 16-bit pattern");
    assert_eq!(parse_imm(b"-0x10").unwrap(), -16);
    assert_eq!(parse_imm(b"-32768").unwrap(), -32768);
    assert_eq!(parse_imm(b"32767").unwrap(), 32767);
    assert!(matches!(parse_imm(b"32768"), Err(AsmError::InvalidImmediate(_))));
    assert!(matches!(parse_imm(b"0x10000"), Err(AsmError::InvalidImmediate(_))));
    assert!(matches!(parse_imm(b"-0x8001"), Err(AsmError::InvalidImmediate(_))));
    assert!(matches!(parse_imm(b"zz"), Err(AsmError::InvalidImmediate(_))));
}

#[test]
fn parse_char_and_u32_literals() {
    assert_eq!(parse_char_literal(b"'A'"), Some(65));
    assert_eq!(parse_char_literal(b"'ab'"), None);
    assert_eq!(parse_u32_literal(b"0xFFFFFFFF").unwrap(), 0xFFFF_FFFF);
    assert_eq!(parse_u32_literal(b"0X10").unwrap(), 16);
    assert_eq!(parse_u32_literal(b"4294967295").unwrap(), u32::MAX);
    assert!(parse_u32_literal(b"4294967296").is_err());
}

#[test]
fn encodes_exact_words() {
    // ADDI r1, r0, 0x1234: op 0x10, rd 1, rs 0, imm 0x1234.
    assert_eq!(
        words_of("addi r1, r0, 0x1234\n"),
        vec![(0x10u32 << 26) | (1 << 21) | 0x1234]
    );
    // SW r1, 8(r2): op 0x19, rd 1, rs 2, imm 8.
    assert_eq!(
        words_of("sw r1, 8(r2)\n"),
        vec![(0x19u32 << 26) | (1 << 21) | (2 << 16) | 8]
    );
    // ADD r3, r4 (two-operand form): op 0, rd 3, rs 4.
    assert_eq!(words_of("add r3, r4\n"), vec![(3u32 << 21) | (4 << 16)]);
    // LUI r1, 0xDEAD.
    assert_eq!(
        words_of("lui r1, 0xDEAD\n"),
        vec![(0x16u32 << 26) | (1 << 21) | 0xDEAD]
    );
    // NOP and HALT.
    assert_eq!(
        words_of("nop\nhalt\n"),
        vec![0x3Eu32 << 26, 0x3Fu32 << 26]
    );
}

#[test]
fn branch_displacement_round_trip() {
    // The branch sits at 0, the label at 12: displacement (12 - 4) / 4 = 2.
    let words = words_of("beq r1, r2, target\nnop\nnop\ntarget: halt\n");
    let i = Instruction::decode(words[0]);
    assert_eq!(i.opcode, 0x20);
    assert_eq!(i.rd, 1);
    assert_eq!(i.rs, 2);
    assert_eq!(i.imm16 as i16, 2);
}

#[test]
fn backward_branch_negative_displacement() {
    let words = words_of("top: nop\nbne r1, r0, top\n");
    // The branch sits at 4; (0 - 8) / 4 = -2.
    let i = Instruction::decode(words[1]);
    assert_eq!(i.imm16 as i16, -2);
}

#[test]
fn jump_encodes_word_target() {
    let words = words_of("j end\nnop\nend: halt\n");
    let i = Instruction::decode(words[0]);
    assert_eq!(i.opcode, 0x28);
    assert_eq!(i.target, 8 >> 2);
}

#[test]
fn la_expands_to_lui_ori() {
    let src = ".org 0x0\nla r5, data\nhalt\ndata: .string \"x\"\n";
    let segs = assemble_nv32(src).expect("assembly failed");
    let words = &segs[0].words;
    // la is two instructions, so data sits at 12.
    let lui = Instruction::decode(words[0]);
    let ori = Instruction::decode(words[1]);
    assert_eq!(lui.opcode, 0x16);
    assert_eq!(lui.imm16, 0);
    assert_eq!(ori.opcode, 0x12);
    assert_eq!(ori.imm16, 12);
}

#[test]
fn equ_and_char_operands() {
    let words = words_of(".equ FIVE, 5\naddi r1, r0, FIVE\naddi r2, r0, 'A'\n");
    assert_eq!(words[0] & 0xFFFF, 5);
    assert_eq!(words[1] & 0xFFFF, 65);
}

#[test]
fn equ_references_earlier_equate() {
    let words = words_of(".equ A, 0x10\n.equ B, A\naddi r1, r0, B\n");
    assert_eq!(words[0] & 0xFFFF, 0x10);
}

#[test]
fn string_directive_packs_nul_terminated() {
    let segs = assemble_nv32(".string \"AB\\n\"\n").unwrap();
    // Bytes A B \n NUL pack into one word, little-endian.
    assert_eq!(segs[0].words, vec![0x000A_4241u32]);
    let segs2 = assemble_nv32(".ascii \"ABCD\"\n").unwrap();
    assert_eq!(segs2[0].words, vec![0x4443_4241u32]);
}

#[test]
fn org_splits_segments_sorted() {
    let src = ".org 0x100\nnop\n.org 0x10\nhalt\n";
    let segs = assemble_nv32(src).unwrap();
    assert_eq!(segs.len(), 2);
    assert_eq!(segs[0].base_addr, 0x10);
    assert_eq!(segs[0].words, vec![0x3Fu32 << 26]);
    assert_eq!(segs[1].base_addr, 0x100);
    assert_eq!(segs[1].words, vec![0x3Eu32 << 26]);
}

#[test]
fn bss_reserves_without_payload() {
    let src = "nop\n.bss 4\nnop\n";
    let segs = assemble_nv32(src).unwrap();
    assert_eq!(segs.len(), 3);
    assert_eq!(segs[1].kind, SegmentKind::Bss);
    assert_eq!(segs[1].base_addr, 4);
    assert_eq!(segs[1].length_words, 4);
    assert!(segs[1].words.is_empty());
    assert_eq!(segs[2].base_addr, 20);
}

#[test]
fn assembler_error_kinds() {
    assert!(matches!(
        assemble_nv32("beq r1, r2, nowhere\n"),
        Err(AsmError::UnknownLabel(_))
    ));
    assert!(matches!(
        assemble_nv32("addi r99, r0, 1\n"),
        Err(AsmError::InvalidRegister(_))
    ));
    // An out-of-range literal falls back to a name, which no label defines.
    assert!(matches!(
        assemble_nv32("addi r1, r0, 99999\n"),
        Err(AsmError::UnknownLabel(_))
    ));
    // A label whose address does not fit a signed 16-bit immediate.
    assert!(matches!(
        assemble_nv32("addi r1, r0, far\n.org 0x10000\nfar: nop\n"),
        Err(AsmError::InvalidImmediate(_))
    ));
    assert!(matches!(
        assemble_nv32("frobnicate r1\n"),
        Err(AsmError::ParseError(_))
    ));
    assert!(matches!(
        assemble_nv32("a: nop\na: nop\n"),
        Err(AsmError::ParseError(_)),
    ), "duplicate label");
    assert!(matches!(
        assemble_nv32(".unknowndir 3\n"),
        Err(AsmError::ParseError(_))
    ));
}

#[test]
fn comments_and_blank_lines_ignored() {
    let words = words_of("; leading comment\n  # another\nnop ; trailing\n\n");
    assert_eq!(words, vec![0x3Eu32 << 26]);
}

#[test]
fn nv32_round_trip_bytes() {
    let segs = vec![
        NvSegment { kind: SegmentKind::CodeData, base_addr: 0, length_words: 2, words: vec![1, 0xDEAD_BEEF] },
        NvSegment { kind: SegmentKind::Bss, base_addr: 0x40, length_words: 8, words: vec![] },
    ];
    let bytes = write_nv32(&segs);
    // Header: magic, version 1, two segments, reserved.
    assert_eq!(&bytes[0..4], b"NV32");
    assert_eq!(&bytes[4..6], &[1, 0]);
    assert_eq!(&bytes[6..8], &[2, 0]);
    let back = parse_nv32(&bytes).expect("parse failed");
    assert_eq!(back, segs);
}

#[test]
fn nv32_reader_rejects_bad_input() {
    assert_eq!(parse_nv32(b"NV"), Err(Nv32Error::Truncated));
    assert_eq!(
        parse_nv32(b"XX32\x01\x00\x00\x00\x00\x00\x00\x00"),
        Err(Nv32Error::BadMagic)
    );
    assert_eq!(
        parse_nv32(b"NV32\x02\x00\x00\x00\x00\x00\x00\x00"),
        Err(Nv32Error::BadVersion)
    );
    // One segment promised, none present.
    assert_eq!(
        parse_nv32(b"NV32\x01\x00\x01\x00\x00\x00\x00\x00"),
        Err(Nv32Error::Truncated)
    );
    // Unknown segment kind 7.
    let mut img = b"NV32\x01\x00\x01\x00\x00\x00\x00\x00".to_vec();
    img.extend_from_slice(&[7, 0, 0, 0, 0, 0, 0, 0, 0, 0, 0, 0, 0, 0, 0, 0]);
    assert_eq!(parse_nv32(&img), Err(Nv32Error::UnknownKind(7)));
}

#[test]
fn assembled_image_survives_container() {
    let src = "start: addi r1, r0, 3\n.org 0x40\ndata: .string \"hi\"\n.bss 2\n";
    let segs = assemble_nv32(src).unwrap();
    let bytes = write_nv32(&segs);
    let back = parse_nv32(&bytes).unwrap();
    assert_eq!(back, segs);
}

#[test]
fn op_str_names() {
    assert_eq!(op_str(0x00), "ADD");
    assert_eq!(op_str(0x16), "LUI");
    assert_eq!(op_str(0x3F), "HALT");
    assert_eq!(op_str(0x30), "UNKNOWN");
}

#[test]
fn decode_field_overlays() {
    let raw = (0x10u32 << 26) | (3 << 21) | (4 << 16) | 0x8001;
    let i = Instruction::decode(raw);
    assert_eq!(i.opcode, 0x10);
    assert_eq!(i.rd, 3);
    assert_eq!(i.rs, 4);
    assert_eq!(i.imm16, 0x8001);
    assert_eq!(i.target, raw & 0x03FF_FFFF);
    let nop = Instruction::nop();
    assert_eq!(nop.opcode, 0x3E);
}

#[test]
fn lookup_newest_entry_shadows() {
    let table = vec![(b"a".to_vec(), 1u32), (b"b".to_vec(), 2u32), (b"a".to_vec(), 3u32)];
    assert_eq!(lookup(&table, b"a"), Some(3));
    assert_eq!(lookup(&table, b"b"), Some(2));
    assert_eq!(lookup(&table, b"c"), None);
    assert_eq!(get_label_addr(b"b", &table).unwrap(), 2);
    assert!(matches!(
        get_label_addr(b"zz", &table),
        Err(AsmError::UnknownLabel(_))
    ));
}

#[test]
fn strip_comment_cuts_first_marker() {
    assert_eq!(strip_comment(b"nop ; tail"), b"nop ".to_vec());
    assert_eq!(strip_comment(b"nop # tail"), b"nop ".to_vec());
    assert_eq!(strip_comment(b"a # b ; c"), b"a ".to_vec());
    assert_eq!(strip_comment(b"plain"), b"plain".to_vec());
}

#[test]
fn split_label_forms() {
    let (lab, rest) = split_label(b"loop: nop").unwrap();
    assert_eq!(lab, Some(b"loop".to_vec()));
    assert_eq!(rest, b" nop".to_vec());
    let (lab2, rest2) = split_label(b"nop").unwrap();
    assert_eq!(lab2, None);
    assert_eq!(rest2, b"nop".to_vec());
    assert!(matches!(split_label(b"  : nop"), Err(AsmError::ParseError(_))));
}
