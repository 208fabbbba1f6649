//! Nova3201: a 32-bit fixed-width RISC-style virtual machine, with the
//! two-pass assembler and the NV32 object-file codec that feed it.
//!
//! The crate is organised leaves-first: the ISA tables, the memory blocks
//! and devices, the bus that routes accesses to them, the CPU that executes
//! one instruction per step, the machine that composes everything, and the
//! assembler / NV32 codec that produce loadable images.

pub mod isa;
pub mod ram;
pub mod vram;
pub mod font;
pub mod rom;
pub mod timer;
pub mod uart;
pub mod bus;
pub mod cpu;
pub mod machine;
pub mod nv32;
pub mod asmtext;
pub mod assembler;

pub use bus::NovaBus;
pub use cpu::Cpu;
pub use machine::Machine;
