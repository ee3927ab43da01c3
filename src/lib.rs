//! An interpreter for the CHIP-8 family of 8-bit virtual machines.
//!
//! The library holds the whole execution engine: memory and registers,
//! the instruction decoder, the opcode semantics for the three
//! compatibility modes, the sprite framebuffer, the key-wait latch and the
//! 60 Hz timers. Windowing, audio and physical keyboard polling are left to
//! the host, which hands the engine the held keys and reads back the
//! framebuffer and the beep state.
pub mod display;
pub mod error;
pub mod instruction;
pub mod keyboard;
pub mod machine;
pub mod operators;
pub mod runtime;
pub mod storage;
