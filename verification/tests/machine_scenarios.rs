//! End-to-end scenarios: assemble a small program, load it at the reset
//! vector, run the machine, and check the architectural state.

use nova3201::assembler::assemble_nv32;
use nova3201::machine::Machine;
use nova3201::nv32::SegmentKind;

/// Assemble `src`, load every segment into RAM, and return the machine.
fn boot(src: &str) -> Machine {
    let mut m = Machine::new();
    let segs = assemble_nv32(src).expect("assembly failed");
    for seg in &segs {
        match seg.kind {
            SegmentKind::CodeData => m.load_program(seg.base_addr, &seg.words),
            SegmentKind::Bss => {
                let zeros = vec![0u32; seg.length_words as usize];
                m.load_program(seg.base_addr, &zeros);
            }
        }
    }
    m
}

#[test]
fn addi_sw_lw_round_trip() {
    let mut m = boot("addi r1, r0, 0x1234\nsw r1, 0(r0)\nlw r2, 0(r0)\nhalt\n");
    m.run(100);
    assert!(m.cpu.halted());
    assert_eq!(m.cpu.regs()[1], 0x0000_1234);
    assert_eq!(m.cpu.regs()[2], 0x0000_1234);
    assert_eq!(m.bus.load8(0).unwrap(), 0x34);
    assert_eq!(m.bus.load8(1).unwrap(), 0x12);
    assert_eq!(m.bus.load8(2).unwrap(), 0x00);
    assert_eq!(m.bus.load8(3).unwrap(), 0x00);
}

#[test]
fn sign_extended_addi() {
    let mut m = boot("addi r1, r0, 0xFFFF\nhalt\n");
    m.run(100);
    assert!(m.cpu.halted());
    assert_eq!(m.cpu.regs()[1], 0xFFFF_FFFF);
}

#[test]
fn lui_ori_materializes_constant() {
    let mut m = boot("lui r1, 0xDEAD\nori r1, r1, 0xBEEF\nhalt\n");
    m.run(100);
    assert!(m.cpu.halted());
    assert_eq!(m.cpu.regs()[1], 0xDEAD_BEEF);
}

#[test]
fn li_pseudo_materializes_constant() {
    let mut m = boot("li r1, 0xDEADBEEF\nli r2, 5\nhalt\n");
    m.run(100);
    assert!(m.cpu.halted());
    assert_eq!(m.cpu.regs()[1], 0xDEAD_BEEF);
    assert_eq!(m.cpu.regs()[2], 5);
}

#[test]
fn forward_branch_not_taken_path_skipped() {
    let mut m = boot("addi r1, r0, 1\nbeq r1, r0, skip\naddi r2, r0, 7\nskip: halt\n");
    m.run(100);
    assert!(m.cpu.halted());
    assert_eq!(m.cpu.regs()[1], 1);
    // r1 != r0, so the branch falls through and r2 is written.
    assert_eq!(m.cpu.regs()[2], 7);
}

#[test]
fn forward_branch_taken_skips_write() {
    let mut m = boot("addi r1, r0, 0\nbeq r1, r0, skip\naddi r2, r0, 7\nskip: halt\n");
    m.run(100);
    assert!(m.cpu.halted());
    assert_eq!(m.cpu.regs()[2], 0);
}

#[test]
fn jal_links_return_address() {
    // start at 0: JAL at 0 links PC + 4 = 4 into r31; sub jumps back to the
    // HALT at 4 through r31.
    let mut m = boot("start: jal sub\nhalt\nsub: jr r31\n");
    m.run(100);
    assert!(m.cpu.halted());
    assert_eq!(m.cpu.regs()[31], 0x0000_0004);
    assert_eq!(m.cpu.pc(), 0x0000_0004);
}

#[test]
fn timer_irq_entry() {
    // Timer1 period 3, enabled with IRQ enable; a HALT sits at the
    // exception vector. The third tick asserts the IRQ line and the CPU
    // vectors to 0x100 with the timer cause recorded. Once the IRQ is
    // acknowledged, the handler's HALT runs.
    let mut m = Machine::new();
    m.bus.timer1.set_period(3);
    m.bus.timer1.set_ctrl(
        nova3201::timer::TIMER_ENABLED | nova3201::timer::TIMER_IRQ_ENABLED,
    );
    // HALT instruction word at the exception vector.
    let halt = (0x3Fu32) << 26;
    m.load_program(0x100, &[halt]);
    for _ in 0..3 {
        m.step();
    }
    assert_eq!(m.cpu.cause(), 0x100);
    assert_eq!(m.cpu.pc(), 0x0000_0100);
    // The zero words at the reset vector decode as ADD, so the CPU has
    // advanced two instructions before the interrupt arrives.
    assert_eq!(m.cpu.epc(), 0x0000_0008);
    // The line is level-held until acknowledged; ack through the bus as a
    // handler would, then the HALT at the vector runs.
    m.bus.store32(0x8000_2110, 0).unwrap();
    m.step();
    assert!(m.cpu.halted());
}

#[test]
fn uart_tx_through_store() {
    // SB to the UART TX register sends the low byte to the sink.
    let mut m = boot(
        "lui r1, 0x8000\nori r1, r1, 0x2200\naddi r2, r0, 65\nsb r2, 0(r1)\naddi r2, r0, 66\nsb r2, 0(r1)\nhalt\n",
    );
    m.run(100);
    assert!(m.cpu.halted());
    assert_eq!(m.bus.uart.take_tx(), vec![65u8, 66u8]);
}

#[test]
fn illegal_opcode_vectors() {
    // Opcode 0x30 is unassigned: the CPU records the illegal-op cause and
    // enters the exception vector.
    let mut m = Machine::new();
    let bad = 0x30u32 << 26;
    let halt = 0x3Fu32 << 26;
    m.load_program(0, &[bad]);
    m.load_program(0x100, &[halt]);
    m.step();
    assert_eq!(m.cpu.pc(), 0x100);
    assert_eq!(m.cpu.cause(), 0x00);
    assert_eq!(m.cpu.epc(), 0);
    m.step();
    assert!(m.cpu.halted());
}

#[test]
fn r0_stays_zero() {
    let mut m = boot("addi r0, r0, 123\nhalt\n");
    m.run(100);
    assert!(m.cpu.halted());
    assert_eq!(m.cpu.regs()[0], 0);
}

#[test]
fn jr_and_jalr() {
    let mut m = boot("li r1, 16\njalr r2, r1\nhalt\nnop\nhalt\n");
    // li 16 fits: one ADDI at 0; JALR at 4 links 8, jumps to 16 (the
    // second HALT).
    m.run(100);
    assert!(m.cpu.halted());
    assert_eq!(m.cpu.regs()[2], 8);
    assert_eq!(m.cpu.pc(), 16);
}

#[test]
fn halted_machine_is_idle() {
    let mut m = boot("halt\n");
    m.run(10);
    assert!(m.cpu.halted());
    let pc = m.cpu.pc();
    m.step();
    assert_eq!(m.cpu.pc(), pc);
    assert!(m.cpu.halted());
}

#[test]
fn straight_line_instructions_advance_pc_by_4() {
    let mut m = boot("addi r1, r0, 1\nnop\nhalt\n");
    assert_eq!(m.cpu.pc(), 0);
    m.step();
    assert_eq!(m.cpu.pc(), 4);
    m.step();
    assert_eq!(m.cpu.pc(), 8);
}
