//! A verified interpreter for the CHIP-8 virtual machine.
//!
//! The machine owns a 4096-byte memory with a preloaded glyph font, sixteen
//! byte registers, a 16-bit index register and program counter, a bounded
//! call stack, a 64x32 monochrome display, two countdown timers, and sixteen
//! key lines.  The host drives it through `tick` (one instruction) and
//! `tick_timers` (one timer step); every instruction's effect is specified
//! against a mathematical model of the machine state and proved.

pub mod cpu;
pub mod decode;
pub mod error;
pub mod laws;
mod rng;
pub mod state;
pub mod step;

pub use cpu::Cpu;
pub use error::Chip8Error;
pub use state::{State, SCREEN_WIDTH, SCREEN_HEIGHT};
