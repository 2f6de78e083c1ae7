use vstd::prelude::*;

verus! {

/// What a drawing operation can refuse.
#[derive(Clone, Copy, Debug, PartialEq, Eq, Structural)]
pub enum Error {
    /// The number does not fit in the digit positions that are available to it.
    InsufficientDigits,
    /// The character is neither a hexadecimal digit nor the minus sign.
    NotValidChar,
}

} // verus!
