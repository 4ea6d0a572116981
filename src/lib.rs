//! An interpreter core for a 32-bit RISC-V hart (RV32IMA with machine-mode
//! trap state), with every instruction's effect stated over a mathematical
//! model of the hart and its RAM.
use vstd::prelude::*;

pub mod alu;
pub mod decode;
pub mod hart;
pub mod memory;

pub use hart::{MiniRV32IMAState, MmioBus};

verus! {

/// Absolute address of byte 0 of the RAM image.
pub const MINIRV32_RAM_IMAGE_OFFSET: u32 = 0x8000_0000;

/// Default size of the RAM image handed to the core.
pub const UVM32_MEMORY_SIZE: u32 = 65536;

/// Syscall number (in x17) with which a guest asks the harness to stop.
pub const UVM32_SYSCALL_HALT: u32 = 0x0100_0000;

} // verus!
