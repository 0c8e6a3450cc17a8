//! A verified CHIP-8 interpreter core: the machine state, the
//! fetch/decode/execute cycle over the full opcode table, and the
//! deadline-based scheduler that drives the CPU, the two 60Hz timers
//! and the periodic statistics report from a single wall clock.

pub mod chip8;
pub mod scheduler;
