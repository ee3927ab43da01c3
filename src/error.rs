//! The fatal conditions of the machine.
use vstd::prelude::*;

verus! {

/// Why the machine cannot start or cannot go on.
#[derive(Clone, Copy, Debug, PartialEq, Eq, Structural)]
pub enum ChipError {
    /// The program image does not fit in memory above the load address.
    LoadError,
    /// A subroutine call found the call stack full.
    StackOverflow,
    /// A return found the call stack empty.
    StackUnderflow,
    /// The instruction word names no operation this machine supports.
    UnsupportedOpcode(u16),
    /// An instruction fetch or a memory-indexed operation reached past the
    /// last memory cell.
    AddressOutOfRange,
}

} // verus!
