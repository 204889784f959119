//! An emulator core for a small 8-bit virtual machine: a 16-bit big-endian
//! instruction codec, a 64x32 monochrome framebuffer with XOR-sprite drawing
//! and collision detection, and the fetch-decode-execute state machine.
use vstd::prelude::*;

pub mod cli;
pub mod display;
pub mod error;
pub mod instruction;
pub mod interpreter;

pub use cli::Subcommand;
pub use display::ScaledFramebuffer;
pub use error::Chip8Error;
pub use instruction::{Address, Instruction, Register, nibbles, parse, read_be_u16};
pub use interpreter::{RandomSource, State, apply_random, execute, tick};

verus! {

} // verus!
