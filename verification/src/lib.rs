//! A verified CHIP-8 interpreter core.
//!
//! The machine state, the fetch-decode-execute cycle, the full opcode
//! semantics, and the timer model live here with proved contracts; a host
//! shell around the library owns the window, the keyboard, and the ROM file.

pub mod decode;
pub mod exec;
pub mod laws;
pub mod machine;
mod rng;
