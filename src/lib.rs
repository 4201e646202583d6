//! Dioptase: an emulator for a 32-bit RISC instruction set with a
//! software-managed TLB, a memory-mapped device bus, an interrupt controller
//! for several cores, and a tile/pixel/sprite video subsystem.
use vstd::prelude::*;

pub mod alu;
pub mod cpu;
pub mod debugger;
pub mod dma;
pub mod emulator;
pub mod image;
pub mod interrupts;
pub mod memory;
pub mod scheduler;
pub mod sdcard;
pub mod tlb;
pub mod video;

verus! {

} // verus!
