use vstd::prelude::*;

verus! {

/// The faults that stop loading or execution.
#[derive(Debug, Clone, Copy, PartialEq, Eq, Structural)]
pub enum Chip8Error {
    /// The program image does not fit above the reserved area.
    LoadError,
    /// The instruction matches no entry of the instruction set.
    UnknownOpcode { instruction: u16, pc: u16 },
    /// A call was made with all sixteen stack entries in use.
    StackOverflow,
    /// A return was made with an empty stack.
    StackUnderflow,
    /// A computed address falls outside the address space.
    OutOfBoundsAccess,
}

} // verus!
