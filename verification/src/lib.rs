//! A coverage-guided fuzzer core for RISC-V targets: the guest memory management unit, the
//! instruction decoder, the intermediate representation and the lifter that feeds the JIT.

pub mod config;
pub mod elfparser;
pub mod emulator;
pub mod hooks;
pub mod ir_display;
pub mod irgraph;
pub mod jit;
pub mod labels;
pub mod loader;
pub mod registers;
pub mod riscv;
pub mod shared;
pub mod ssa_builder;
pub mod stack;
pub mod mmu;
pub mod mutator;
pub mod pretty_printing;
pub mod program_generator;
pub mod syscalls;
pub mod trace;

pub use loader::{load_elf_segments, LoadError};
