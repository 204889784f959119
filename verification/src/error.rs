//! Typed failures of the machine: every fatal condition is surfaced as a
//! value of [`Chip8Error`] rather than a process abort, so a host can catch
//! and report it.
use vstd::prelude::*;

verus! {

/// Everything that can go fatally wrong while decoding or executing.
#[derive(Debug, Clone, Copy, PartialEq, Eq, Structural)]
pub enum Chip8Error {
    /// An address field does not fit in 12 bits; carries the offending value.
    AddressTooLarge(u16),
    /// A program longer than the space from 0x200 to 0xFFF was loaded.
    ProgramTooLarge,
    /// A return was executed with an empty stack.
    StackUnderflow,
    /// A call was executed with all 16 stack slots in use.
    StackOverflow,
    /// A sprite read would run past the end of memory.
    SpriteOutOfBounds,
    /// An instruction the machine does not model was executed; carries the
    /// raw instruction word.
    UnrecognizedInstruction(u16),
}

} // verus!
