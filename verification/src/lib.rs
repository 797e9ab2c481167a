//! A CHIP-8 virtual machine: instruction decoding and the fetch/decode/execute
//! cycle over an explicitly owned machine state, with every state transition
//! stated over a mathematical model of the machine and proved.
//!
//! [`Chip8`] is the machine that runs; [`Machine`] is what it is to a proof.
//! [`Instruction`] and [`Operation`] are the decoder. The module `laws` holds
//! what follows from the model for every machine and every program.

pub mod chip8;
pub mod display;
mod draw_progress;
pub mod error;
pub mod instruction;
pub mod laws;
pub mod machine;
mod random;

pub use crate::chip8::Chip8;
pub use crate::display::{SCREEN_HEIGHT, SCREEN_PIXELS, SCREEN_WIDTH};
pub use crate::error::Chip8Error;
pub use crate::instruction::{Instruction, Operation};
pub use crate::machine::{Machine, GLYPHS, MAX_ROM_SIZE, MEMORY_SIZE, PROGRAM_START, STACK_DEPTH};
