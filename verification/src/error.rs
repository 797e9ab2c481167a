use vstd::prelude::*;

verus! {

/// Why an operation on the machine was refused. A refused operation leaves the
/// machine exactly as it was.
#[derive(Clone, Copy, Debug, PartialEq, Eq, Structural)]
pub enum Chip8Error {
    /// The program image does not fit between address `0x200` and the end of memory.
    RomTooLarge,
    /// The instruction word at the program counter names no operation.
    UnknownOpcode,
    /// A subroutine call found the call stack full.
    StackOverflow,
    /// A return found the call stack empty.
    StackUnderflow,
    /// An instruction fetch, or an access through the address register, would
    /// leave the 4096 cells of memory.
    AddressOutOfBounds,
}

} // verus!
