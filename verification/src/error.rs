use vstd::prelude::*;

verus! {

/// The conditions an operation can reject: each is local, synchronous, and
/// recoverable by the caller.
#[derive(Clone, Copy, Debug, PartialEq, Eq, Structural)]
pub enum Chip8Error {
    /// The fetched instruction matches no known pattern.
    UnimplementedOpcode,
    /// A ROM longer than the 3584 bytes of program space was offered.
    RomTooLarge,
    /// The key-state setter was called with an index outside 0..16.
    InvalidKeyIndex,
    /// A subroutine call arrived while the call stack held 16 return addresses.
    StackOverflow,
    /// A return-from-subroutine arrived while the call stack was empty.
    StackUnderflow,
}

} // verus!
