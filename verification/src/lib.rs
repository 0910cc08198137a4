//! A CHIP-8 virtual machine core: a fixed 4096-byte memory with a built-in
//! glyph set, sixteen byte registers, a bounded call stack, two countdown
//! timers and a 64 x 32 monochrome framebuffer, driven by a fetch-decode-
//! execute cycle.  The instruction tick and the 60 Hz timer tick are two
//! separate entry points; the host owns pacing, rendering, audio and the
//! keypad.

use vstd::prelude::*;

pub mod instr;
pub mod model;
pub mod emu;
pub mod laws;

verus! {

/// Size of the addressable memory in bytes.
pub const MEMORY_SIZE: usize = 4096;

/// Byte offset at which a loaded ROM begins.
pub const ROM_OFFSET: usize = 0x200;

/// Width of the monochrome framebuffer in pixels.
pub const SCREEN_WIDTH: usize = 64;

/// Height of the monochrome framebuffer in pixels.
pub const SCREEN_HEIGHT: usize = 32;

/// Number of general-purpose byte registers.
pub const NUM_REGS: usize = 16;

/// Capacity of the call stack.
pub const STACK_SIZE: usize = 16;

/// Number of keys on the keypad.
pub const NUM_KEYS: usize = 16;

/// Number of bytes in the built-in glyph set (16 glyphs of 5 rows each).
pub const FONTSET_SIZE: usize = 80;

} // verus!

pub use emu::Emu;
pub use instr::Instr;
pub use model::{EmuError, Mode, TickOutcome, TimerOutcome};
